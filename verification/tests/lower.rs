//! The template language, from text to the execution form.
use kiru::ir::serialize::write_template;
use kiru::ir::{Instruction, Ir};
use kiru::lower::files::{
    eval_path_template, import_candidates, parse_file, Candidate, Compiler, Entry, PathStep, Step,
};
use kiru::lower::stmt::{compile_stmt, LoweringState};
use kiru::lower::CompileError;
use kiru::plan::ArmPattern;
use kiru::syntax::parser::parse_source;
use kiru::syntax::{Program, Stmt, TopLevel};

fn parse_program(input: &str) -> Result<Program, String> {
    match parse_source("test.kiru".to_string(), input.to_string()) {
        Ok(program) => Ok(program),
        Err(e) => Err(e.message().to_string()),
    }
}

fn stmt_type(stmt: &Stmt) -> &'static str {
    match stmt {
        Stmt::Shell { .. } => "shell",
        Stmt::Timeout { .. } => "timeout",
        Stmt::Var { .. } => "var",
        Stmt::Fn { .. } => "fn",
        Stmt::Project { .. } => "pr",
        Stmt::Run { .. } => "run",
        Stmt::Field { .. } => "field",
    }
}

fn count_stmt_types(program: &Program) -> Vec<&'static str> {
    program
        .top_level_items
        .iter()
        .map(|item| match item {
            TopLevel::Stmt(s) => stmt_type(s),
            TopLevel::Import(_) => "import",
        })
        .collect()
}

fn count_body_stmt_types(body: &[Stmt]) -> Vec<&'static str> {
    body.iter().map(stmt_type).collect()
}

/// Compiles files that are held in memory.
fn compile_files(files: &[(&str, &str)]) -> Result<Ir, CompileError> {
    let mut compiler = Compiler::new();
    let (name, text) = files[0];
    compiler.add_program(parse_file(name.to_string(), text.to_string())?);
    loop {
        match compiler.step()? {
            Step::Finished => return compiler.finish(),
            Step::Import { path, source_name } => {
                let text = match compiler.eval_import_path(&path, &Vec::new(), &source_name)? {
                    PathStep::Done { text, .. } => text,
                    PathStep::Run(cmd) => panic!("no command is run here: {cmd}"),
                };
                compiler.check_import_path(&text, &source_name, path.offset, path.len)?;
                for candidate in import_candidates(&text) {
                    if let Candidate::File(file) = candidate {
                        if let Some((name, text)) = files.iter().find(|(n, _)| *n == file) {
                            if compiler.enter(name)? == Entry::Read {
                                compiler
                                    .add_program(parse_file(name.to_string(), text.to_string())?);
                            }
                            break;
                        }
                    }
                }
            }
        }
    }
}

fn compile_str(src: &str) -> Ir {
    compile_files(&[("main.kiru", src)]).unwrap_or_else(|e| panic!("compile failed: {:?}", e))
}

fn message_of(e: CompileError) -> String {
    match e {
        CompileError::Parse(d) => format!("parse: {}", d[0].msg),
        CompileError::Validation(d) => format!("validation: {}", d[0].msg),
    }
}

#[test]
fn test_sync_with_fields() {
    let input = "sync myproj { url = (u); dir = (d); branch = (b); sync = (ignore); };";
    let prog = parse_program(input).unwrap();
    assert_eq!(count_stmt_types(&prog), vec!["pr"]);
    match &prog.top_level_items[0] {
        TopLevel::Stmt(Stmt::Project {
            name, fields, body, ..
        }) => {
            assert_eq!(name, "myproj");
            assert_eq!(fields.len(), 4);
            assert!(body.is_empty());
        }
        _ => panic!("expected Project"),
    }
}

#[test]
fn test_pr_with_body() {
    let input = "pr p { var app = (todo); fn build { log (x); } };";
    let prog = parse_program(input).unwrap();
    match &prog.top_level_items[0] {
        TopLevel::Stmt(Stmt::Project { fields, body, .. }) => {
            assert!(fields.is_empty());
            assert_eq!(count_body_stmt_types(body), vec!["var", "fn"]);
        }
        _ => panic!("expected Project"),
    }
}

#[test]
fn test_project_unknown_field_key_errors() {
    let result = parse_program("sync p { unknown = (v); };");
    assert!(result.is_err());
}

#[test]
fn test_project_duplicate_field_errors() {
    let result = parse_program("sync p { url = (a); url = (b); };");
    assert!(result.is_err());
}

#[test]
fn test_project_missing_field_value() {
    let result = parse_program("sync p { url = };");
    assert!(result.is_err());
}

#[test]
fn test_compile_basic_project() {
    let ir = compile_str(
        "\
shell = (sh);
var home_dir = $(echo /home/user);
sync nix {
    url = (git@github.com:nix);
    dir = (@(home_dir)/nix);
    branch = (main);
    sync = (clone);
};
pr nix {
    var channel = (unstable);
    fn eval { log (evaluating @(channel)); };
};
run bootstrap { nix::eval; };
",
    );
    assert_eq!(ir.shell, "sh");
    assert_eq!(ir.projects.len(), 1);
    let nix = ir.projects.get("nix").expect("nix project");
    let eval_body = nix.functions.get("eval").expect("eval fn");
    assert_eq!(eval_body.len(), 1);
    match &eval_body[0] {
        Instruction::Log(t) => {
            assert_eq!(
                write_template(t),
                "(t (lit \"evaluating \") (lit \"unstable\"))"
            )
        }
        _ => panic!("expected log"),
    }
    let sync = ir.repositories.get("nix").expect("nix sync");
    assert_eq!(
        write_template(&sync.url),
        "(t (lit \"git@github.com:nix\"))"
    );
    assert_eq!(
        write_template(&sync.dir),
        "(t (cmd (t (lit \"echo /home/user\"))) (lit \"/nix\"))"
    );
    assert_eq!(write_template(&sync.branch), "(t (lit \"main\"))");
    assert_eq!(write_template(&sync.strategy), "(t (lit \"clone\"))");
    let calls = ir.execution_chains.get("bootstrap").expect("bootstrap run");
    assert_eq!(calls.len(), 1, "single stage");
    assert_eq!(calls[0].len(), 1, "single call in stage");
    assert_eq!(calls[0][0].fqn(), "nix::eval");
}

#[test]
fn test_compile_unknown_run_reference_fails() {
    let result = compile_files(&[(
        "bad.kiru",
        "pr nix { fn eval { log (x); }; } run bad { nix::missing; };",
    )]);
    assert!(result.is_err());
}

#[test]
fn test_compile_switch_lowering() {
    let ir = compile_str(
        "\
pr p {
    var os = (linux);
    fn pick {
        switch @(os) {
            case (linux) { log (linux-path); };
            case _ { log (other); };
        };
    };
};
",
    );
    let p = ir.projects.get("p").expect("p project");
    let body = p.functions.get("pick").expect("pick fn");
    assert_eq!(body.len(), 1);
    match &body[0] {
        Instruction::Switch { arms, .. } => {
            assert_eq!(arms.len(), 2);
            assert!(matches!(arms[1].pattern, ArmPattern::Default));
        }
        _ => panic!("expected switch"),
    }
}

/// A reference to a function that does not exist is named in the message.
#[test]
fn an_unknown_function_in_a_run_is_named() {
    let e = compile_files(&[(
        "bad.kiru",
        "pr nix { fn eval { log (x); }; }; run bad { nix::missing; };",
    )])
    .unwrap_err();
    let text = message_of(e);
    assert!(text.starts_with("validation: "), "{text}");
    assert!(text.contains("missing"), "{text}");
}

#[test]
fn an_import_is_compiled_once_and_in_place() {
    let ir = compile_files(&[
        (
            "main.kiru",
            "import (lib.kiru); import (lib.kiru); pr p { fn f { log (@(greeting)); }; };",
        ),
        ("lib.kiru", "var greeting = (hello);"),
    ])
    .unwrap();
    let body = ir.projects.get("p").unwrap().functions.get("f").unwrap();
    match &body[0] {
        Instruction::Log(t) => assert_eq!(write_template(t), "(t (lit \"hello\"))"),
        _ => panic!("expected log"),
    }
}

#[test]
fn files_that_import_each_other_are_refused() {
    let e = compile_files(&[
        ("a.kiru", "import (b.kiru);"),
        ("b.kiru", "import (a.kiru);"),
    ])
    .unwrap_err();
    assert_eq!(message_of(e), "validation: circular import: a.kiru");
}

#[test]
fn an_empty_import_path_is_refused() {
    let e = compile_files(&[("a.kiru", "import ();")]).unwrap_err();
    assert!(
        message_of(e).ends_with("import path cannot be empty"),
        "the path is checked"
    );
}

#[test]
fn an_undefined_variable_is_refused() {
    let e = compile_files(&[("a.kiru", "var x = (@(nothing));")]).unwrap_err();
    let text = message_of(e);
    assert!(text.starts_with("validation: "), "{text}");
    assert!(text.contains("nothing"), "{text}");
}

#[test]
fn a_text_that_does_not_parse_is_reported_at_its_place() {
    let e = compile_files(&[("a.kiru", "var = (x);")]).unwrap_err();
    match e {
        CompileError::Parse(d) => {
            assert_eq!(d.len(), 1);
            assert_eq!(d[0].source_name, "a.kiru");
            assert_eq!(d[0].source_text, "var = (x);");
            assert_eq!(d[0].span.offset, 4);
        }
        other => panic!("expected a parse error, got {other:?}"),
    }
}

#[test]
fn imports_are_looked_for_in_three_places() {
    assert_eq!(
        import_candidates("sub/lib.kiru"),
        vec![
            Candidate::File("sub/lib.kiru".to_string()),
            Candidate::File("lib.kiru".to_string()),
            Candidate::FilesIn("sub/lib".to_string()),
        ]
    );
    assert_eq!(
        import_candidates("lib"),
        vec![
            Candidate::File("lib".to_string()),
            Candidate::File("lib".to_string()),
        ]
    );
    assert_eq!(
        import_candidates("a/b/./"),
        vec![
            Candidate::File("a/b/./".to_string()),
            Candidate::File("b".to_string()),
        ]
    );
    assert_eq!(
        import_candidates("a/.."),
        vec![Candidate::File("a/..".to_string())]
    );
}

#[test]
fn a_missing_import_is_a_warning() {
    let compiler = Compiler::new();
    let d = compiler.missing_import("x.kiru", "a.kiru", 3, 0);
    assert_eq!(d.msg, "import target 'x.kiru' does not exist, skipping");
    assert_eq!((d.span.offset, d.span.len), (3, 1));
}

#[test]
fn a_path_asks_for_the_output_of_its_command() {
    let program = parse_program("import $(pwd);").unwrap();
    let path = match &program.top_level_items[0] {
        TopLevel::Import(path) => path,
        _ => panic!("expected import"),
    };
    let state = LoweringState::new();
    assert_eq!(
        eval_path_template(path, &Vec::new(), 0, &state, "test.kiru"),
        Ok(PathStep::Run("pwd".to_string()))
    );
    assert_eq!(
        eval_path_template(path, &vec!["/home".to_string()], 0, &state, "test.kiru"),
        Ok(PathStep::Done {
            text: "/home".to_string(),
            used: 1
        })
    );
}

#[test]
fn a_variable_in_an_import_path_is_refused() {
    let program = parse_program("import (@(dir)/x.kiru);").unwrap();
    let path = match &program.top_level_items[0] {
        TopLevel::Import(path) => path,
        _ => panic!("expected import"),
    };
    let state = LoweringState::new();
    let e = eval_path_template(path, &Vec::new(), 0, &state, "test.kiru").unwrap_err();
    assert_eq!(message_of(e), "validation: unexpected @(dir) in import path");
}

fn declarations(text: &str) -> Vec<Stmt> {
    parse_program(text)
        .unwrap()
        .top_level_items
        .into_iter()
        .map(|item| match item {
            TopLevel::Stmt(s) => s,
            TopLevel::Import(_) => panic!("no imports here"),
        })
        .collect()
}

fn compile_all(text: &str, state: &mut LoweringState) -> Vec<Result<(), CompileError>> {
    declarations(text)
        .iter()
        .map(|s| compile_stmt(s, state, "test.kiru"))
        .collect()
}

/// Settings, variables and runs that do not compile leave everything as it was.
#[test]
fn a_refused_declaration_leaves_the_state_as_it_was() {
    let mut state = LoweringState::new();
    let results = compile_all(
        "shell = (sh); timeout = (5); var a = (1); \
         timeout = (6); timeout = (x); timeout = (0); shell = (fish); var a = (2);",
        &mut state,
    );
    assert_eq!(results.iter().filter(|r| r.is_ok()).count(), 3);
    assert_eq!(state.shell.as_deref(), Some("sh"));
    assert_eq!(state.timeout, Some(5));
    assert_eq!(state.globals.len(), 1);
}

/// Blocks that do not compile keep what was said before the error, by earlier
/// blocks too, and touch nothing else.
#[test]
fn a_refused_block_keeps_what_was_said_before() {
    let mut state = LoweringState::new();
    let results = compile_all(
        "sync p { url = (u); }; sync q { url = (v); }; pr p { fn f { log (x); }; }; \
         sync p { dir = (d); branch = (@(missing)); }; \
         pr p { var v = (1); fn f { log (y); }; fn g { log (z); }; };",
        &mut state,
    );
    let ok: Vec<bool> = results.iter().map(|r| r.is_ok()).collect();
    assert_eq!(ok, vec![true, true, true, false, false]);
    let p = state.syncs.get("p").unwrap();
    assert!(p.url.is_some() && p.dir.is_some() && p.branch.is_none());
    assert!(state.syncs.get("q").unwrap().url.is_some());
    let project = state.projects.get("p").unwrap();
    assert_eq!(project.functions.len(), 1);
    assert!(project.vars.get("v").is_some());
}
