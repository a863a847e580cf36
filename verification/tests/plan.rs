//! Plans and their kirufiles.
use kiru::names::NameMap;
use kiru::plan::write::{write_instruction_inline, write_instructions};
use kiru::plan::{
    render_template, write_template, Arm, ArmPattern, Call, EnvPair, Instruction, Part, Plan,
    Project, Sync, Template,
};

fn sample_plan() -> Plan {
    let check_cmd = || Template {
        parts: vec![Part::Cmd(Template::lit("test -f $HOME"))],
    };

    let mut project = Project::default();
    project.functions.insert(
        "ssh".to_string(),
        vec![
            Instruction::Bind {
                value: check_cmd(),
            },
            Instruction::Switch {
                subject: check_cmd(),
                arms: vec![
                    Arm {
                        pattern: ArmPattern::Lit("1".to_string()),
                        body: vec![Instruction::Log(Template::lit("switching"))],
                    },
                    Arm {
                        pattern: ArmPattern::Default,
                        body: vec![Instruction::Log(Template::lit("default"))],
                    },
                ],
            },
            Instruction::Env {
                pairs: vec![EnvPair {
                    key: "GO".to_string(),
                    value: Template::lit("1"),
                }],
                body: vec![Instruction::Cd(Template::lit("project"))],
            },
        ],
    );

    let mut syncs = NameMap::new();
    syncs.insert(
        "nix".to_string(),
        Sync {
            url: Template::lit("https://example.com/nix"),
            dir: Template::lit("/home/me/nix"),
            branch: Template::lit("main"),
            strategy: Template::lit("clone"),
        },
    );

    let mut run_blocks = NameMap::new();
    run_blocks.insert(
        "bootstrap".to_string(),
        vec![vec![Call {
            project: "nix".to_string(),
            function: "ssh".to_string(),
        }]],
    );

    Plan {
        shell: "sh".to_string(),
        syncs,
        projects: {
            let mut m = NameMap::new();
            m.insert("nix".to_string(), project);
            m
        },
        run_blocks,
    }
}

#[test]
fn plan_test_kirufile_round_trip() {
    let plan = sample_plan();
    let text = plan.to_kirufile();
    let parsed = Plan::from_kirufile(&text).expect("should parse");
    assert_eq!(plan, parsed, "round trip mismatch:\n{}", text);
}

#[test]
fn plan_test_kirufile_escapes() {
    let mut plan = Plan {
        shell: "sh".to_string(),
        ..Default::default()
    };
    let mut project = Project::default();
    project.functions.insert(
        "weird".to_string(),
        vec![Instruction::Bind {
            value: Template::lit("has \"quotes\" and ) parens"),
        }],
    );
    plan.projects.insert("p".to_string(), project);
    let text = plan.to_kirufile();
    let parsed = Plan::from_kirufile(&text).expect("should parse");
    assert_eq!(
        parsed.projects.get("p").unwrap().functions.get("weird").unwrap()[0],
        Instruction::Bind {
            value: Template::lit("has \"quotes\" and ) parens"),
        }
    );
}

#[test]
fn written_text() {
    let text = sample_plan().to_kirufile();
    assert_eq!(
        text,
        "(kirufile\n  (version 1)\n  (shell \"sh\")\n  (sync nix (url (t (lit \"https://example.com/nix\"))) (dir (t (lit \"/home/me/nix\"))) (branch (t (lit \"main\"))) (strategy (t (lit \"clone\"))))\n  (project nix\n    (fn ssh\n      (bind (t (cmd (t (lit \"test -f $HOME\")))))\n      (switch (t (cmd (t (lit \"test -f $HOME\")))) (case \"1\" (log (t (lit \"switching\")))) (case _ (log (t (lit \"default\")))))\n      (env ((GO (t (lit \"1\")))) ((cd (t (lit \"project\")))))\n    )\n  )\n  (run bootstrap (stage (call nix ssh)))\n)\n"
    );
}

#[test]
fn templates_as_text() {
    let t = Template {
        parts: vec![
            Part::Lit("a\n\"b\"\\".to_string()),
            Part::Cmd(Template::lit("echo é")),
        ],
    };
    assert_eq!(
        write_template(&t),
        "(t (lit \"a\\n\\\"b\\\"\\\\\") (cmd (t (lit \"echo é\"))))"
    );
    assert_eq!(render_template(&t), "a\n\"b\"\\echo é");
}

#[test]
fn call_names() {
    let call = Call { project: "nix".to_string(), function: "ssh".to_string() };
    assert_eq!(call.fqn(), "nix::ssh");
}

fn error(text: &str) -> String {
    Plan::from_kirufile(text).unwrap_err()
}

#[test]
fn errors_of_reading() {
    assert_eq!(error(""), "unexpected end of kirufile");
    assert_eq!(error(")"), "unexpected `)` in kirufile");
    assert_eq!(error("(kirufile"), "unterminated list in kirufile");
    assert_eq!(error("kirufile"), "kirufile must be a list");
    assert_eq!(
        error("(plan)"),
        "expected `kirufile` at position 0, found Some(Sym(\"plan\"))"
    );
    assert_eq!(error("(kirufile x)"), "top-level entry must be a list");
    assert_eq!(error("(kirufile ())"), "empty entry");
    assert_eq!(error("(kirufile (\"a\"))"), "entry head must be a symbol");
    assert_eq!(error("(kirufile (what))"), "unknown top-level entry: what");
    assert_eq!(
        error("(kirufile (shell sh))"),
        "expected string for shell , found Some(Sym(\"sh\"))"
    );
    assert_eq!(
        error("(kirufile (sync))"),
        "expected identifier for sync id, found None"
    );
    assert_eq!(
        error("(kirufile (sync s (color (t))))"),
        "unknown sync field: color"
    );
    assert_eq!(error("(kirufile (sync s (url)))"), "missing template");
    assert_eq!(
        error("(kirufile (project p (fn f (jump (t)))))"),
        "unknown instruction: jump"
    );
    assert_eq!(
        error("(kirufile (project p (fn f (log (t (x))))))"),
        "unknown part: Some(Sym(\"x\"))"
    );
    assert_eq!(
        error("(kirufile (project p (fn f (switch (t) (case (a \"b\"))))))"),
        "bad case pattern: Some(List([Sym(\"a\"), Str(\"b\")]))"
    );
    assert_eq!(
        error("(kirufile (run r (stage (call a))))"),
        "expected identifier for call function, found None"
    );
}

#[test]
fn later_entries_win_and_trailing_text_is_ignored() {
    let plan = Plan::from_kirufile("(kirufile (shell \"a\") (shell \"b\")) rest").unwrap();
    assert_eq!(plan.shell, "b");
}

#[test]
fn escapes_are_read() {
    let plan = Plan::from_kirufile("(kirufile (shell \"\\n\\t\\r\\0\\x\\u{41}!b\"))").unwrap();
    assert_eq!(plan.shell, "\n\t\r\0xA!b");
}

#[test]
fn an_env_block_in_a_block_is_read_back() {
    let env = |body| Instruction::Env {
        pairs: vec![EnvPair {
            key: "K".to_string(),
            value: Template::lit("v"),
        }],
        body,
    };
    let mut plan = Plan::default();
    let mut project = Project::default();
    project.functions.insert(
        "f".to_string(),
        vec![
            env(vec![env(vec![]), Instruction::Log(Template::lit("x"))]),
            Instruction::Switch {
                subject: Template::lit("s"),
                arms: vec![Arm {
                    pattern: ArmPattern::Default,
                    body: vec![env(vec![env(vec![Instruction::Cd(Template::lit("d"))])])],
                }],
            },
        ],
    );
    plan.projects.insert("p".to_string(), project);
    assert_eq!(Plan::from_kirufile(&plan.to_kirufile()), Ok(plan));
}

#[test]
fn an_env_block_shares_a_line() {
    let inst = Instruction::Env {
        pairs: vec![],
        body: vec![Instruction::Log(Template::lit("x"))],
    };
    assert_eq!(
        write_instruction_inline(&inst),
        "(env () ((log (t (lit \"x\")))))"
    );
}

/// Characters of every kind survive: escapes by letter and by number, and
/// characters beyond ASCII.
#[test]
fn any_text_is_read_back() {
    for text in [
        "\u{1b}[0m",
        "caf\u{e9}",
        "e\u{301}",
        "\u{200b}x\u{7f}y\u{1f600}z",
        "\"\\\n\t\r\0'",
        "(a) \\u{41}",
    ] {
        let plan = Plan {
            shell: text.to_string(),
            ..Plan::default()
        };
        let written = plan.to_kirufile();
        assert!(written.contains(&format!("{text:?}")));
        assert_eq!(Plan::from_kirufile(&written), Ok(plan));
    }
}

/// One line for each instruction; lists are joined line by line.
#[test]
fn instructions_are_written_line_by_line() {
    let log = |s: &str| Instruction::Log(Template::lit(s));
    let both = write_instructions(&vec![log("a\nb"), log("c")], 2);
    assert_eq!(
        both,
        "    (log (t (lit \"a\\nb\")))\n    (log (t (lit \"c\")))\n"
    );
    let one = write_instructions(&vec![log("a\nb")], 2);
    let other = write_instructions(&vec![log("c")], 2);
    assert_eq!(both, format!("{one}{other}"));
}
