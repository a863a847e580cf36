//! The parser on texts.
use kiru::dsl::ast::{ProjectField, Program, QualifiedFnRef, Stmt, TopLevel};
use kiru::dsl::fnstmt::{CaseStmt, EnvBlockStmt, FnStmt};
use kiru::dsl::parser::expr::parse_interpolation_parts;
use kiru::dsl::parser::parse_program;
use kiru::dsl::syntax::{CasePattern, Expr, VarType};

fn count_fn_stmt_types(body: &[FnStmt]) -> Vec<&'static str> {
    body.iter()
        .map(|s| match s {
            FnStmt::Log(_) => "log",
            FnStmt::Exec(_) => "exec",
            FnStmt::Cd(_) => "cd",
            FnStmt::VarDecl(_) => "var",
            FnStmt::EnvBlock(_) => "env",
            FnStmt::Case(_) => "case",
        })
        .collect()
}

fn count_stmt_types(program: &Program) -> Vec<&'static str> {
    program
        .items
        .iter()
        .map(|s| match s {
            TopLevel::Stmt(Stmt::Sanctuary { .. }) => "sanctuary",
            TopLevel::Stmt(Stmt::Var { .. }) => "var",
            TopLevel::Stmt(Stmt::Project { .. }) => "pr",
            TopLevel::Stmt(Stmt::Field { .. }) => "field",
            TopLevel::Stmt(Stmt::Fn { .. }) => "fn",
            TopLevel::Stmt(Stmt::Run { .. }) => "run",
            TopLevel::Stmt(_) => "other",
            TopLevel::Import(_) => "import",
        })
        .collect()
}

#[test]
fn test_sanctuary_decl() {
    let prog = parse_program("sanctuary = `/tmp/dev`;").unwrap();
    assert_eq!(count_stmt_types(&prog), vec!["sanctuary"]);
    match &prog.items[0] {
        TopLevel::Stmt(Stmt::Sanctuary { value }) => match value {
            Expr::BacktickLit { parts, .. } => {
                let concat: String = parts.iter().map(|p| p.value.as_str()).collect();
                assert_eq!(concat, "/tmp/dev");
            }
            _ => panic!("expected BacktickLit"),
        },
        _ => panic!("expected SanctuaryDecl"),
    }
}

#[test]
fn test_sanctuary_with_var_ref() {
    let prog = parse_program("sanctuary = $workdir;").unwrap();
    match &prog.items[0] {
        TopLevel::Stmt(Stmt::Sanctuary { value }) => match value {
            Expr::VarRef { name, .. } => assert_eq!(name, "workdir"),
            _ => panic!("expected VarRef"),
        },
        _ => panic!("expected SanctuaryDecl"),
    }
}

#[test]
fn test_import_decl() {
    let prog = parse_program("import `./other.kiru`;").unwrap();
    assert_eq!(count_stmt_types(&prog), vec!["import"]);
    match &prog.items[0] {
        TopLevel::Import(path) => match path {
            Expr::BacktickLit { parts, .. } => {
                let concat: String = parts.iter().map(|p| p.value.as_str()).collect();
                assert_eq!(concat, "./other.kiru");
            }
            _ => panic!("expected BacktickLit"),
        },
        _ => panic!("expected ImportDecl"),
    }
}

#[test]
fn tests_test_var_string_decl() {
    let prog = parse_program("var string x = `hello`;").unwrap();
    match &prog.items[0] {
        TopLevel::Stmt(Stmt::Var { var_type, name, value, .. }) => {
            assert_eq!(*var_type, VarType::String);
            assert_eq!(name, "x");
            match value {
                Expr::BacktickLit { parts, .. } => {
                    let concat: String = parts.iter().map(|p| p.value.as_str()).collect();
                    assert_eq!(concat, "hello");
                }
                _ => panic!("expected BacktickLit"),
            }
        }
        _ => panic!("expected VarDecl"),
    }
}

#[test]
fn tests_test_var_shell_decl() {
    let prog = parse_program("var shell x = `echo hello`;").unwrap();
    match &prog.items[0] {
        TopLevel::Stmt(Stmt::Var { var_type, name, .. }) => {
            assert_eq!(*var_type, VarType::Shell);
            assert_eq!(name, "x");
        }
        _ => panic!("expected VarDecl"),
    }
}

#[test]
fn tests_test_var_missing_type_annotation() {
    let result = parse_program("var x = `hello`;");
    assert!(result.is_err());
    let errs = result.unwrap_err();
    assert!(
        errs.iter()
            .any(|e| e.message().contains("expected 'string' or 'shell'"))
    );
}

#[test]
fn tests_test_var_invalid_type() {
    let result = parse_program("var number x = `5`;");
    assert!(result.is_err());
    let errs = result.unwrap_err();
    assert!(
        errs.iter()
            .any(|e| e.message().contains("expected 'string' or 'shell'"))
    );
}

#[test]
fn test_project_decl_with_fields() {
    let input = "\npr todo {\n    url = `git@github.com:user/repo.git`;\n    dir = `todo`;\n    sync = `clone`;\n    include = `./main.kiru`;\n    branch = `main`;\n}";
    let prog = parse_program(input).unwrap();
    assert_eq!(count_stmt_types(&prog), vec!["pr"]);
    match &prog.items[0] {
        TopLevel::Stmt(Stmt::Project { name, fields, body }) => {
            assert_eq!(name, "todo");
            assert_eq!(fields.len(), 5);
            assert!(body.is_empty());
            let keys: Vec<&str> = fields
                .iter()
                .map(|f| match f {
                    Stmt::Field { key, .. } => key.as_str(),
                    _ => panic!("expected Field"),
                })
                .collect();
            assert_eq!(keys, vec!["url", "dir", "sync", "include", "branch"]);
        }
        _ => panic!("expected ProjectDecl"),
    }
}

#[test]
fn test_project_decl_with_body_stmts() {
    let input = "\npr todo {\n    url = `git@github.com:user/repo.git`;\n    dir = `todo`;\n    var string app = `todo`;\n    fn build {\n        log `building`;\n    }\n    run release {\n        build;\n    }\n    run ci {\n        build;\n    }\n}";
    let prog = parse_program(input).unwrap();
    match &prog.items[0] {
        TopLevel::Stmt(Stmt::Project { name, fields, body }) => {
            assert_eq!(name, "todo");
            assert_eq!(fields.len(), 2);
            assert_eq!(body.len(), 4);
            assert!(matches!(body[0], Stmt::Var { .. }));
            assert!(matches!(body[1], Stmt::Fn { .. }));
            assert!(matches!(body[2], Stmt::Run { .. }));
            assert!(matches!(body[3], Stmt::Run { .. }));
        }
        _ => panic!("expected ProjectDecl"),
    }
}

#[test]
fn test_project_duplicate_fields() {
    let input = "\npr x {\n    url = `a`;\n    url = `b`;\n    dir = `d`;\n}";
    let prog = parse_program(input).unwrap();
    match &prog.items[0] {
        TopLevel::Stmt(Stmt::Project { fields, .. }) => {
            assert_eq!(fields.len(), 3);
        }
        _ => panic!("expected ProjectDecl"),
    }
}

#[test]
fn test_run_only_allows_ident() {
    let result = parse_program("run s { 123; }");
    assert!(result.is_err());
}

#[test]
fn test_run_ref_not_allowed() {
    let result = parse_program("run p { run.x; }");
    assert!(result.is_err());
}

#[test]
fn test_run_name_ref_not_allowed() {
    let result = parse_program("run s { s.x; }");
    assert!(result.is_err());
}

// --- Error recovery tests ---

#[test]
fn tests_test_missing_semicolon() {
    let result = parse_program("sanctuary = `$HOME`");
    assert!(result.is_err());
    let errs = result.unwrap_err();
    assert!(errs.iter().any(|e| e.message().contains("expected")));
}

#[test]
fn tests_test_missing_opening_brace_after_fn() {
    let result = parse_program("fn bad");
    assert!(result.is_err());
}

#[test]
fn tests_test_missing_opening_brace_after_run() {
    let result = parse_program("run bad");
    assert!(result.is_err());
}

#[test]
fn tests_test_unexpected_token_at_top_level() {
    let result = parse_program("fooobar = `bar`;");
    assert!(result.is_err());
    let errs = result.unwrap_err();
    assert!(
        errs.iter()
            .any(|e| e.message().contains("expected sanctuary"))
    );
}

#[test]
fn tests_test_unclosed_fn_brace() {
    let result = parse_program("fn bad { log `hi`;");
    assert!(result.is_err());
}

#[test]
fn tests_test_unclosed_run_brace() {
    let result = parse_program("run s { check;");
    assert!(result.is_err());
}

#[test]
fn tests_test_var_with_var_ref_value() {
    let input = "var string x = `a`; var string y = `${x}`;";
    let prog = parse_program(input).unwrap();
    assert_eq!(count_stmt_types(&prog), vec!["var", "var"]);
}

#[test]
fn tests_test_multiple_top_level_statements() {
    let input = "sanctuary = `/tmp`;\n\
                  import `./other.kiru`;\n\
                  var string x = `hello`;\n\
                   pr p { url = `u`; dir = `d`; fn f { log `hi`; } run s { f; } }";
    let prog = parse_program(input).unwrap();
    assert_eq!(
        count_stmt_types(&prog),
        vec!["sanctuary", "import", "var", "pr"]
    );
}

#[test]
fn tests_test_error_recovery_skips_bad_stmt() {
    let result = parse_program("sanctuary = `/tmp`;\nfn bad { unknown }");
    match result {
        Ok(prog) => {
            assert_eq!(prog.items.len(), 2);
        }
        Err(errs) => {
            assert!(errs.iter().any(|e| e.message().contains("expected log")));
        }
    }
}

#[test]
fn test_import_path_types() {
    let inputs = vec![
        "import `./foo.kiru`;",
        "import `../foo.kiru`;",
        "import `../../dir/foo.kiru`;",
    ];
    for input in inputs {
        let result = parse_program(input);
        assert!(result.is_ok(), "expected success for: {}", input);
    }
}

#[test]
fn test_project_with_interleaved_fields_and_body() {
    let input = "\npr todo {\n    url = `u`;\n    var string app = `todo`;\n    dir = `d`;\n    fn build { log `x`; }\n    sync = `clone`;\n}";
    let prog = parse_program(input).unwrap();
    match &prog.items[0] {
        TopLevel::Stmt(Stmt::Project { fields, body, .. }) => {
            assert_eq!(fields.len(), 3);
            assert_eq!(body.len(), 2);
        }
        _ => panic!("expected ProjectDecl"),
    }
}

// --- Case statement tests ---

#[test]
fn test_case_stmt_in_fn_body() {
    let input = "pr p { fn test { case $os { `Linux` { log `linux`; }; _ { log `other`; }; }; } }";
    let prog = parse_program(input).unwrap();
    match &prog.items[0] {
        TopLevel::Stmt(Stmt::Project { body, .. }) => match &body[0] {
            Stmt::Fn { name, body, .. } => {
                assert_eq!(name, "test");
                assert_eq!(count_fn_stmt_types(body), vec!["case"]);
                match &body[0] {
                    FnStmt::Case(CaseStmt { condition, scopes: arms }) => {
                        assert!(matches!(condition, Expr::VarRef { .. }));
                        assert_eq!(arms.len(), 2);
                        assert!(matches!(arms[0].pattern, CasePattern::Literal { .. }));
                        assert!(matches!(arms[1].pattern, CasePattern::Default));
                    }
                    _ => panic!("expected Case"),
                }
            }
            _ => panic!("expected FnDecl"),
        },
        _ => panic!("expected ProjectDecl"),
    }
}

#[test]
fn test_case_with_var_ref_pattern() {
    let input =
        "pr p { fn test { case $os { $expected { log `match`; }; _ { log `no match`; }; }; } }";
    let prog = parse_program(input).unwrap();
    match &prog.items[0] {
        TopLevel::Stmt(Stmt::Project { body, .. }) => match &body[0] {
            Stmt::Fn { body, .. } => match &body[0] {
                FnStmt::Case(CaseStmt { scopes: arms, .. }) => {
                    assert_eq!(arms.len(), 2);
                    assert!(matches!(arms[0].pattern, CasePattern::VarRef { .. }));
                    assert!(matches!(arms[1].pattern, CasePattern::Default));
                }
                _ => panic!("expected Case"),
            },
            _ => panic!("expected FnDecl"),
        },
        _ => panic!("expected ProjectDecl"),
    }
}

#[test]
fn test_case_with_backtick_condition() {
    let input = "pr p { fn test { case `hello` { `hello` { log `match`; }; _ { log `no`; }; }; } }";
    let prog = parse_program(input).unwrap();
    match &prog.items[0] {
        TopLevel::Stmt(Stmt::Project { body, .. }) => match &body[0] {
            Stmt::Fn { body, .. } => match &body[0] {
                FnStmt::Case(CaseStmt { condition, .. }) => {
                    assert!(matches!(condition, Expr::BacktickLit { .. }));
                }
                _ => panic!("expected Case"),
            },
            _ => panic!("expected FnDecl"),
        },
        _ => panic!("expected ProjectDecl"),
    }
}

#[test]
fn test_case_with_interpolation_in_pattern() {
    let input =
        "pr p { fn test { case $os { `hello ${world}` { log `match`; }; _ { log `no`; }; }; } }";
    let prog = parse_program(input).unwrap();
    match &prog.items[0] {
        TopLevel::Stmt(Stmt::Project { body, .. }) => match &body[0] {
            Stmt::Fn { body, .. } => match &body[0] {
                FnStmt::Case(CaseStmt { scopes: arms, .. }) => {
                    assert!(matches!(arms[0].pattern, CasePattern::Literal { .. }));
                }
                _ => panic!("expected Case"),
            },
            _ => panic!("expected FnDecl"),
        },
        _ => panic!("expected ProjectDecl"),
    }
}

#[test]
fn test_case_nested_inside_env() {
    let input = "pr p { fn test { env [DEBUG = `1`] { case $os { `Linux` { log `linux`; }; _ { log `other`; }; }; }; } }";
    let prog = parse_program(input).unwrap();
    match &prog.items[0] {
        TopLevel::Stmt(Stmt::Project { body, .. }) => match &body[0] {
            Stmt::Fn { body, .. } => {
                assert_eq!(count_fn_stmt_types(body), vec!["env"]);
                match &body[0] {
                    FnStmt::EnvBlock(EnvBlockStmt { body: env_body, .. }) => {
                        assert_eq!(count_fn_stmt_types(env_body), vec!["case"]);
                    }
                    _ => panic!("expected EnvBlock"),
                }
            }
            _ => panic!("expected FnDecl"),
        },
        _ => panic!("expected ProjectDecl"),
    }
}

#[test]
fn test_case_missing_opening_brace_error() {
    let result = parse_program("pr p { fn test { case $os _ { log `x`; }; } }");
    let errs = result.unwrap_err();
    assert!(
        errs.iter().any(|e| e.message().contains("expected `{`")),
        "got: {:?}",
        errs
    );
}

#[test]
fn test_case_missing_semicolon_after_arm() {
    let result = parse_program("pr p { fn test { case $os { `a` { log `x`; } } } }");
    let errs = result.unwrap_err();
    assert!(
        errs.iter().any(|e| e.message().contains("expected `;`")),
        "got: {:?}",
        errs
    );
}

#[test]
fn test_case_pattern_invalid() {
    let result = parse_program("pr p { fn test { case $os { 123 { log `x`; }; } } }");
    let errs = result.unwrap_err();
    assert!(
        errs.iter()
            .any(|e| e.message().contains("expected pattern before")),
        "got: {:?}",
        errs
    );
}

#[test]
fn test_case_missing_semicolon_after_block() {
    let result = parse_program("pr p { fn test { case $os { _ { log `x`; }; } } }");
    let errs = result.unwrap_err();
    assert!(
        errs.iter().any(|e| e.message().contains("expected `;`")),
        "got: {:?}",
        errs
    );
}

#[test]
fn test_case_nested_inside_case() {
    let input = "pr p { fn test { case $x { `a` { case $y { `1` { log `nested`; }; _ { }; }; }; _ { }; }; } }";
    let prog = parse_program(input).unwrap();
    match &prog.items[0] {
        TopLevel::Stmt(Stmt::Project { body, .. }) => match &body[0] {
            Stmt::Fn { body, .. } => {
                assert_eq!(count_fn_stmt_types(body), vec!["case"]);
                match &body[0] {
                    FnStmt::Case(CaseStmt { scopes: arms, .. }) => {
                        assert_eq!(arms.len(), 2);
                        assert_eq!(count_fn_stmt_types(&arms[0].body), vec!["case"]);
                        assert!(arms[1].body.is_empty());
                    }
                    _ => panic!("expected Case"),
                }
            }
            _ => panic!("expected FnDecl"),
        },
        _ => panic!("expected ProjectDecl"),
    }
}

#[test]
fn test_case_with_cd_in_arm() {
    let input = "pr p { fn test { case $x { `a` { cd `dir`; }; _ { cd $x; }; }; } }";
    let prog = parse_program(input).unwrap();
    match &prog.items[0] {
        TopLevel::Stmt(Stmt::Project { body, .. }) => match &body[0] {
            Stmt::Fn { body, .. } => match &body[0] {
                FnStmt::Case(CaseStmt { scopes: arms, .. }) => {
                    assert_eq!(count_fn_stmt_types(&arms[0].body), vec!["cd"]);
                    assert_eq!(count_fn_stmt_types(&arms[1].body), vec!["cd"]);
                }
                _ => panic!("expected Case"),
            },
            _ => panic!("expected FnDecl"),
        },
        _ => panic!("expected ProjectDecl"),
    }
}

#[test]
fn test_case_with_var_decl_in_arm() {
    let input = "pr p { fn test { case $x { `a` { var string msg = `hello`; }; _ { }; }; } }";
    let prog = parse_program(input).unwrap();
    match &prog.items[0] {
        TopLevel::Stmt(Stmt::Project { body, .. }) => match &body[0] {
            Stmt::Fn { body, .. } => match &body[0] {
                FnStmt::Case(CaseStmt { scopes: arms, .. }) => {
                    assert_eq!(count_fn_stmt_types(&arms[0].body), vec!["var"]);
                }
                _ => panic!("expected Case"),
            },
            _ => panic!("expected FnDecl"),
        },
        _ => panic!("expected ProjectDecl"),
    }
}

#[test]
fn test_case_with_env_in_arm() {
    let input =
        "pr p { fn test { case $x { `a` { env [DEBUG = `1`] { log `ok`; }; }; _ { }; }; } }";
    let prog = parse_program(input).unwrap();
    match &prog.items[0] {
        TopLevel::Stmt(Stmt::Project { body, .. }) => match &body[0] {
            Stmt::Fn { body, .. } => match &body[0] {
                FnStmt::Case(CaseStmt { scopes: arms, .. }) => {
                    assert_eq!(count_fn_stmt_types(&arms[0].body), vec!["env"]);
                }
                _ => panic!("expected Case"),
            },
            _ => panic!("expected FnDecl"),
        },
        _ => panic!("expected ProjectDecl"),
    }
}

#[test]
fn test_case_arm_empty_body() {
    let input = "pr p { fn test { case $x { _ { }; }; } }";
    let prog = parse_program(input).unwrap();
    match &prog.items[0] {
        TopLevel::Stmt(Stmt::Project { body, .. }) => match &body[0] {
            Stmt::Fn { body, .. } => match &body[0] {
                FnStmt::Case(CaseStmt { scopes: arms, .. }) => {
                    assert!(arms[0].body.is_empty());
                }
                _ => panic!("expected Case"),
            },
            _ => panic!("expected FnDecl"),
        },
        _ => panic!("expected ProjectDecl"),
    }
}

#[test]
fn test_case_duplicate_default() {
    let input = "pr p { fn test { case $x { _ { log `a`; }; _ { log `b`; }; }; } }";
    let prog = parse_program(input).unwrap();
    match &prog.items[0] {
        TopLevel::Stmt(Stmt::Project { body, .. }) => match &body[0] {
            Stmt::Fn { body, .. } => match &body[0] {
                FnStmt::Case(CaseStmt { scopes: arms, .. }) => {
                    assert_eq!(arms.len(), 2);
                    assert!(matches!(arms[0].pattern, CasePattern::Default));
                    assert!(matches!(arms[1].pattern, CasePattern::Default));
                }
                _ => panic!("expected Case"),
            },
            _ => panic!("expected FnDecl"),
        },
        _ => panic!("expected ProjectDecl"),
    }
}

#[test]
fn tests_test_underscore_outside_case_pattern() {
    let result = parse_program("pr p { fn test { log `_`; _; } }");
    let errs = result.unwrap_err();
    assert!(
        errs.iter().any(|e| e.message().contains("`_` is only valid as a case pattern")),
        "got: {:?}",
        errs
    );
}

#[test]
fn test_case_with_exec_and_log() {
    let input = "pr p {
    fn deploy {
        var shell docker_bin = `command -v docker 2>/dev/null || command -v podman 2>/dev/null`;
        case `${docker_bin}` {
             `` { log `no container runtime found`; };
            _ { exec `${docker_bin} build .`; };
        };
    }
}";
    let prog = parse_program(input).unwrap();
    match &prog.items[0] {
        TopLevel::Stmt(Stmt::Project { body, .. }) => match &body[0] {
            Stmt::Fn { name, body, .. } => {
                assert_eq!(name, "deploy");
                assert_eq!(count_fn_stmt_types(body), vec!["var", "case"]);
                match &body[1] {
                    FnStmt::Case(CaseStmt { condition, scopes: arms }) => {
                        assert!(matches!(condition, Expr::BacktickLit { .. }));
                        assert_eq!(arms.len(), 2);
                        assert!(matches!(arms[0].pattern, CasePattern::Literal { .. }));
                        assert!(matches!(arms[1].pattern, CasePattern::Default));
                        assert_eq!(count_fn_stmt_types(&arms[0].body), vec!["log"]);
                        assert_eq!(count_fn_stmt_types(&arms[1].body), vec!["exec"]);
                    }
                    _ => panic!("expected Case"),
                }
            }
            _ => panic!("expected FnDecl"),
        },
        _ => panic!("expected ProjectDecl"),
    }
}

// --- Template part tests ---

#[test]
fn tests_test_basic_template_part() {
    let parts = parse_interpolation_parts("hello", 0).unwrap();
    assert_eq!(parts.len(), 1);
    assert!(!parts[0].is_var);
    assert_eq!(parts[0].value, "hello");
}

#[test]
fn tests_test_template_with_var() {
    let parts = parse_interpolation_parts("hello ${name} world", 0).unwrap();
    assert_eq!(parts.len(), 3);
    assert!(!parts[0].is_var);
    assert_eq!(parts[0].value, "hello ");
    assert!(parts[1].is_var);
    assert_eq!(parts[1].value, "name");
    assert!(!parts[2].is_var);
    assert_eq!(parts[2].value, " world");
}

#[test]
fn tests_test_template_empty_var_name() {
    let result = parse_interpolation_parts("hello ${}", 0);
    assert!(result.is_err());
    assert!(
        result
            .unwrap_err()
            .message()
            .contains("empty variable name")
    );
}

#[test]
fn test_fn_body_with_log_exec() {
    let input = "fn build {\n\
                  log `compiling`;\n\
                  exec `cargo build`;\n\
                  }";
    let prog = parse_program(input).unwrap();
    match &prog.items[0] {
        TopLevel::Stmt(Stmt::Fn { name, body, .. }) => {
            assert_eq!(name, "build");
            assert_eq!(count_fn_stmt_types(body), vec!["log", "exec"]);
        }
        _ => panic!("expected FnDecl"),
    }
}

#[test]
fn test_fn_body_orders() {
    let input = "fn deploy {\n\
                  env [] { exec `deploy`; };\n\
                  cd `./dist`;\n\
                  exec `npm publish`;\n\
                  log `done`;\n\
                  }";
    let prog = parse_program(input).unwrap();
    match &prog.items[0] {
        TopLevel::Stmt(Stmt::Fn { name, body, .. }) => {
            assert_eq!(name, "deploy");
            assert_eq!(count_fn_stmt_types(body), vec!["env", "cd", "exec", "log"]);
        }
        _ => panic!("expected FnDecl"),
    }
}

#[test]
fn test_env_block_contents() {
    let input = "fn test {\n\
                  env [] {\n\
                  exec `run tests`;\n\
                  log `testing`;\n\
                  };\n\
                  }";
    let prog = parse_program(input).unwrap();
    match &prog.items[0] {
        TopLevel::Stmt(Stmt::Fn { body, .. }) => {
            assert_eq!(body.len(), 1);
            match &body[0] {
                FnStmt::EnvBlock(EnvBlockStmt { body: env_body, .. }) => {
                    assert_eq!(env_body.len(), 2);
                    assert!(matches!(env_body[0], FnStmt::Exec(_)));
                    assert!(matches!(env_body[1], FnStmt::Log(_)));
                }
                _ => panic!("expected EnvBlock"),
            }
        }
        _ => panic!("expected FnDecl"),
    }
}

#[test]
fn test_case_single_branch() {
    let input = "fn test {\n\
                  case $os {\n\
                  `Linux` { exec `linux-deploy`; };\n\
                  };\n\
                  }";
    let prog = parse_program(input).unwrap();
    match &prog.items[0] {
        TopLevel::Stmt(Stmt::Fn { body, .. }) => {
            assert_eq!(body.len(), 1);
            match &body[0] {
                FnStmt::Case(CaseStmt { scopes, .. }) => {
                    assert_eq!(scopes.len(), 1);
                }
                _ => panic!("expected Case"),
            }
        }
        _ => panic!("expected FnDecl"),
    }
}

#[test]
fn test_case_multiple_branches_with_default() {
    let input = "fn deploy {\n\
                  case $target {\n\
                  `production` { exec `deploy-prod`; };\n\
                  `staging` { exec `deploy-staging`; };\n\
                  _ { log `unknown target`; };\n\
                  };\n\
                  }";
    let prog = parse_program(input).unwrap();
    match &prog.items[0] {
        TopLevel::Stmt(Stmt::Fn { body, .. }) => match &body[0] {
            FnStmt::Case(CaseStmt { scopes, .. }) => {
                assert_eq!(scopes.len(), 3);
                assert!(matches!(
                    &scopes[0].pattern,
                    CasePattern::Literal { .. }
                ));
                assert!(matches!(
                    &scopes[2].pattern,
                    CasePattern::Default
                ));
            }
            _ => panic!("expected Case"),
        },
        _ => panic!("expected FnDecl"),
    }
}

#[test]
fn test_case_nested() {
    let input = "fn test {\n\
                  case $os {\n\
                  `Linux` {\n\
                  case $arch {\n\
                  `x86_64` { exec `linux-amd64`; };\n\
                  `aarch64` { exec `linux-arm64`; };\n\
                  };\n\
                  };\n\
                  };\n\
                  }";
    let prog = parse_program(input).unwrap();
    match &prog.items[0] {
        TopLevel::Stmt(Stmt::Fn { body, .. }) => match &body[0] {
            FnStmt::Case(CaseStmt { scopes, .. }) => {
                assert_eq!(scopes.len(), 1);
                match &scopes[0].body[0] {
                    FnStmt::Case(CaseStmt { scopes: inner, .. }) => {
                        assert_eq!(inner.len(), 2);
                    }
                    _ => panic!("expected nested Case"),
                }
            }
            _ => panic!("expected Case"),
        },
        _ => panic!("expected FnDecl"),
    }
}

#[test]
fn test_cd_statement() {
    let input = "fn build {\n\
                  cd `./src`;\n\
                  }";
    let prog = parse_program(input).unwrap();
    match &prog.items[0] {
        TopLevel::Stmt(Stmt::Fn { body, .. }) => {
            assert_eq!(body.len(), 1);
            assert!(matches!(body[0], FnStmt::Cd(_)));
        }
        _ => panic!("expected FnDecl"),
    }
}

#[test]
fn test_empty_fn_body() {
    let input = "fn empty {\n\
                  }";
    let prog = parse_program(input).unwrap();
    match &prog.items[0] {
        TopLevel::Stmt(Stmt::Fn { name, body, .. }) => {
            assert_eq!(name, "empty");
            assert!(body.is_empty());
        }
        _ => panic!("expected FnDecl"),
    }
}

#[test]
fn test_trailing_semicolon_in_fn_body() {
    let input = "fn test {\n\
                  log `hi`;\n\
                  log `bye`;\n\
                  }";
    let prog = parse_program(input).unwrap();
    match &prog.items[0] {
        TopLevel::Stmt(Stmt::Fn { body, .. }) => {
            assert_eq!(body.len(), 2);
        }
        _ => panic!("expected FnDecl"),
    }
}

#[test]
fn test_env_block_must_end_with_semicolon() {
    let input = "fn test {\n\
                  env [] { exec `x`; }\n\
                  }";
    let result = parse_program(input);
    match result {
        Ok(_) => panic!("expected error for missing semicolon after env block"),
        Err(errs) => {
            assert!(
                errs.iter().any(|e| e.message().contains("expected")),
                "got: {:?}",
                errs
            );
        }
    }
}

#[test]
fn test_log_must_end_with_semicolon() {
    let result = parse_program("fn x { log `hi` }");
    assert!(result.is_err());
}

#[test]
fn test_exec_must_end_with_semicolon() {
    let result = parse_program("fn x { exec `hi` }");
    assert!(result.is_err());
}
#[test]
fn decl_test_var_string_decl() {
    let prog = parse_program("var string x = `hello`;").unwrap();
    match &prog.items[0] {
        TopLevel::Stmt(Stmt::Var {
            var_type,
            name,
            value,
            ..
        }) => {
            assert_eq!(*var_type, VarType::String);
            assert_eq!(name, "x");
            match value {
                Expr::BacktickLit { parts, .. } => {
                    let concat: String = parts.iter().map(|p| p.value.as_str()).collect();
                    assert_eq!(concat, "hello");
                }
                _ => panic!("expected BacktickLit"),
            }
        }
        _ => panic!("expected VarDecl"),
    }
}

#[test]
fn decl_test_var_shell_decl() {
    let prog = parse_program("var shell x = `echo hello`;").unwrap();
    match &prog.items[0] {
        TopLevel::Stmt(Stmt::Var { var_type, name, .. }) => {
            assert_eq!(*var_type, VarType::Shell);
            assert_eq!(name, "x");
        }
        _ => panic!("expected VarDecl"),
    }
}

#[test]
fn decl_test_var_missing_type_annotation() {
    let result = parse_program("var x = `hello`;");
    assert!(result.is_err());
    let errs = result.unwrap_err();
    assert!(
        errs.iter()
            .any(|e| e.message().contains("expected 'string' or 'shell'"))
    );
}

#[test]
fn decl_test_var_invalid_type() {
    let result = parse_program("var number x = `5`;");
    assert!(result.is_err());
    let errs = result.unwrap_err();
    assert!(
        errs.iter()
            .any(|e| e.message().contains("expected 'string' or 'shell'"))
    );
}

#[test]
fn decl_test_var_with_var_ref_value() {
    let input = "var string x = `a`; var string y = `${global::x}`;";
    let prog = parse_program(input).unwrap();
    assert_eq!(count_stmt_types(&prog), vec!["var", "var"]);
}

#[test]
fn decl_test_missing_semicolon() {
    let result = parse_program("var string x = `hello`");
    assert!(result.is_err());
    let errs = result.unwrap_err();
    assert!(errs.iter().any(|e| e.message().contains("expected")));
}

#[test]
fn decl_test_missing_opening_brace_after_fn() {
    let result = parse_program("fn bad");
    assert!(result.is_err());
}

#[test]
fn decl_test_missing_opening_brace_after_run() {
    let result = parse_program("run bad");
    assert!(result.is_err());
}

#[test]
fn decl_test_unclosed_fn_brace() {
    let result = parse_program("fn bad { log `hi`;");
    assert!(result.is_err());
}

#[test]
fn decl_test_unclosed_run_brace() {
    let result = parse_program("run s { check;");
    assert!(result.is_err());
}
#[test]
fn mod_test_multiple_top_level_statements() {
    let input = "var string x = `hello`;\n\
                  pr p [url = `u` dir = `d`] { fn f { log `hi`; } run s { f; } }";
    let prog = parse_program(input).unwrap();
    assert_eq!(count_stmt_types(&prog), vec!["var", "pr"]);
}

#[test]
fn mod_test_unexpected_token_at_top_level() {
    let result = parse_program("fooobar = `bar`;");
    assert!(result.is_err());
    let errs = result.unwrap_err();
    assert!(
        errs.iter()
            .any(|e| e.message().contains("expected var, pr, fn, or run"))
    );
}

#[test]
fn mod_test_error_recovery_skips_bad_stmt() {
    let result = parse_program("var string x = `hello`;\nfn bad { unknown }");
    match result {
        Ok(prog) => {
            assert_eq!(prog.items.len(), 1);
        }
        Err(errs) => {
            assert!(errs.iter().any(|e| e.message().contains("expected log")));
        }
    }
}

#[test]
fn mod_test_underscore_outside_case_pattern() {
    let result = parse_program("pr p { fn test { log `_`; _; } }");
    let errs = result.unwrap_err();
    assert!(
        errs.iter().any(|e| e.message().contains("`_` is only valid as a case pattern")),
        "got: {:?}",
        errs
    );
}
#[test]
fn expr_test_basic_template_part() {
    let parts = parse_interpolation_parts("hello", 0).unwrap();
    assert_eq!(parts.len(), 1);
    assert!(!parts[0].is_var);
    assert_eq!(parts[0].value, "hello");
}

#[test]
fn expr_test_template_with_var() {
    let parts = parse_interpolation_parts("hello ${name} world", 0).unwrap();
    assert_eq!(parts.len(), 3);
    assert!(!parts[0].is_var);
    assert_eq!(parts[0].value, "hello ");
    assert!(parts[1].is_var);
    assert_eq!(parts[1].value, "name");
    assert!(!parts[2].is_var);
    assert_eq!(parts[2].value, " world");
}

#[test]
fn expr_test_template_empty_var_name() {
    let result = parse_interpolation_parts("hello ${}", 0);
    assert!(result.is_err());
    assert!(
        result
            .unwrap_err()
            .message()
            .contains("empty variable name")
    );
}
#[test]
fn test_run_single_ref() {
    let input = "run b { p::build; }";
    let prog = parse_program(input).unwrap();
    match &prog.items[0] {
        TopLevel::Stmt(Stmt::Run { chains: calls, .. }) => {
            assert_eq!(calls.len(), 1);
            assert_eq!(calls[0].len(), 1);
            assert_eq!(
                calls[0][0],
                QualifiedFnRef {
                    project: "p".into(),
                    function: "build".into()
                }
            );
        }
        _ => panic!("expected Run"),
    }
}

#[test]
fn test_run_multiple_semicolon_is_separate_chains() {
    let input = "run d { p::build; p::deploy; p::notify; }";
    let prog = parse_program(input).unwrap();
    match &prog.items[0] {
        TopLevel::Stmt(Stmt::Run { chains: calls, .. }) => {
            assert_eq!(calls.len(), 3, "each `;` call is its own concurrent chain");
            assert_eq!(calls[0][0].project, "p");
            assert_eq!(calls[0][0].function, "build");
            assert_eq!(calls[2][0].function, "notify");
        }
        _ => panic!("expected Run"),
    }
}

#[test]
fn test_run_arrow_is_sequential_chain() {
    let input = "run d { p::a => p::b => p::c; }";
    let prog = parse_program(input).unwrap();
    match &prog.items[0] {
        TopLevel::Stmt(Stmt::Run { chains: calls, .. }) => {
            assert_eq!(calls.len(), 1, "`=>` joins one sequential chain");
            assert_eq!(calls[0].len(), 3);
            assert_eq!(calls[0][0].function, "a");
            assert_eq!(calls[0][1].function, "b");
            assert_eq!(calls[0][2].function, "c");
        }
        _ => panic!("expected Run"),
    }
}

#[test]
fn test_run_mixed_chains() {
    let input = "run d { p::a; p::b => p::c; p::d }";
    let prog = parse_program(input).unwrap();
    match &prog.items[0] {
        TopLevel::Stmt(Stmt::Run { chains: calls, .. }) => {
            assert_eq!(calls.len(), 3, "two `;` boundaries make three chains");
            assert_eq!(calls[0].len(), 1);
            assert_eq!(calls[1].len(), 2);
            assert_eq!(calls[1][0].function, "b");
            assert_eq!(calls[1][1].function, "c");
            assert_eq!(calls[2][0].function, "d");
        }
        _ => panic!("expected Run"),
    }
}

#[test]
fn test_run_requires_separator_between_calls() {
    let result = parse_program("run r { p::a p::b }");
    assert!(result.is_err());
}

#[test]
fn test_run_requires_namespace() {
    let result = parse_program("run r { build; }");
    assert!(result.is_err());
}

#[test]
fn spans_and_messages_of_errors() {
    let errs = parse_program("var string x = `hello`").unwrap_err();
    assert_eq!(errs.len(), 1);
    assert_eq!(
        errs[0].message(),
        "expected `;` after variable declaration, found end of file"
    );
    assert_eq!((errs[0].span.offset, errs[0].span.len), (21, 1));

    let errs = parse_program("fn run { }").unwrap_err();
    assert_eq!(
        errs[0].message(),
        "expected function name, found `run` (reserved keyword)"
    );
    assert_eq!((errs[0].span.offset, errs[0].span.len), (3, 3));
}

#[test]
fn all_errors_are_reported() {
    let errs = parse_program("var number x = `5`; fn { } run r { p; }").unwrap_err();
    let messages: Vec<&str> = errs.iter().map(|e| e.message()).collect();
    assert_eq!(
        messages,
        vec![
            "expected 'string' or 'shell'",
            "expected function name",
            "expected `::` in run reference, found `;`",
        ]
    );
}

#[test]
fn namespaces_of_references() {
    let prog = parse_program("var string x = $a::b; var string y = `${c::d}-${e}`;").unwrap();
    match &prog.items[0] {
        TopLevel::Stmt(Stmt::Var { value: Expr::VarRef { name, namespace, offset, len, .. }, .. }) => {
            assert_eq!((namespace.as_str(), name.as_str()), ("a", "b"));
            assert_eq!((*offset, *len), (15, 5));
        }
        _ => panic!("expected Var"),
    }
    match &prog.items[1] {
        TopLevel::Stmt(Stmt::Var { value: Expr::BacktickLit { parts, .. }, .. }) => {
            assert_eq!(parts.len(), 3);
            assert_eq!((parts[0].namespace.as_str(), parts[0].value.as_str()), ("c", "d"));
            assert_eq!(parts[1].value, "-");
            assert_eq!((parts[2].namespace.as_str(), parts[2].value.as_str()), ("", "e"));
        }
        _ => panic!("expected Var"),
    }
}

#[test]
fn malformed_interpolations() {
    let unclosed = parse_interpolation_parts("é ${a", 10).unwrap_err();
    assert_eq!(unclosed.message(), "unclosed variable interpolation");
    assert_eq!((unclosed.span.offset, unclosed.span.len), (14, 3));
    let nested = parse_interpolation_parts("${a::b::c}", 0).unwrap_err();
    assert_eq!(
        nested.message(),
        "nested namespace qualifier `::` is not allowed"
    );
}

#[test]
fn field_names() {
    assert_eq!(ProjectField::from_str("branch"), Ok(ProjectField::Branch));
    assert_eq!(ProjectField::from_str("color"), Err(()));
    assert_eq!(ProjectField::Sync.as_str(), "sync");
}

#[test]
fn settings_and_blocks() {
    let prog = parse_program("shell = `fish`; seq s { a; b; } par p { c; } import ./x.kiru;").unwrap();
    assert_eq!(prog.items.len(), 4);
    assert!(matches!(&prog.items[0], TopLevel::Stmt(Stmt::Shell { value }) if value == "fish"));
    assert!(matches!(&prog.items[1], TopLevel::Stmt(Stmt::SeqBlock { fns, .. }) if fns.len() == 2));
    assert!(matches!(&prog.items[2], TopLevel::Stmt(Stmt::ParBlock { fns, .. }) if fns.len() == 1));
    assert!(matches!(&prog.items[3], TopLevel::Import(Expr::BacktickLit { parts, .. }) if parts[0].value == "./x.kiru"));
}

#[test]
fn use_applies_a_function() {
    let prog = parse_program("pr p { use build as b; use test; }").unwrap();
    match &prog.items[0] {
        TopLevel::Stmt(Stmt::Project { body, .. }) => {
            assert!(matches!(&body[0], Stmt::Use { function, alias: Some(a), .. } if function == "build" && a == "b"));
            assert!(matches!(&body[1], Stmt::Use { function, alias: None, .. } if function == "test"));
        }
        _ => panic!("expected Project"),
    }
}

#[test]
fn variables_of_a_statement() {
    let prog = parse_program(
        "fn f { env [A = $p::x] { log `${y}`; }; case $p::z { `${w}` { cd $v; }; _ { }; }; }",
    )
    .unwrap();
    let body = match &prog.items[0] {
        TopLevel::Stmt(Stmt::Fn { body, .. }) => body,
        _ => panic!("expected Fn"),
    };
    let refs: Vec<(String, String)> = body.iter().flat_map(|s| s.visit_vars()).collect();
    let names: Vec<&str> = refs.iter().map(|(n, _)| n.as_str()).collect();
    assert_eq!(names, vec!["x", "y", "z", "w", "v"]);
    assert_eq!(refs[0].1, "p");
    let places = body[1].visit_vars_spanned();
    assert_eq!((places[0].offset, places[0].len), (45, 5));
}

#[test]
fn statements_can_be_renamed_and_moved() {
    let mut prog = parse_program("fn f { env [A = $self::x] { log `${self::y} ${g::z}`; }; }").unwrap();
    let body = match &mut prog.items[0] {
        TopLevel::Stmt(Stmt::Fn { body, .. }) => body,
        _ => panic!("expected Fn"),
    };
    body[0].visit_namespaces_mut(&|ns: &str, _: usize, _: usize, _: &str| {
        if ns == "self" { "proj".to_string() } else { ns.to_string() }
    });
    let before = body[0].visit_vars();
    assert_eq!(before[0], ("x".to_string(), "proj".to_string()));
    assert_eq!(before[1], ("y".to_string(), "proj".to_string()));
    assert_eq!(before[2], ("z".to_string(), "g".to_string()));
    body[0].remap_source_span("other.kiru", 7, 3);
    assert_eq!(body[0].visit_vars(), before);
    for u in body[0].visit_vars_spanned() {
        assert_eq!((u.offset, u.len, u.source_name.as_str()), (7, 3, "other.kiru"));
    }
}
