//! The grammar of the template language, as functions from the tokens ahead to
//! what they stand for and the tokens that are left.
use vstd::prelude::*;
use crate::dsl::ast::ProjectField;
use crate::dsl::error::{ParseErrorView, SourceSpan};
use crate::dsl::grammar::distance;
use crate::dsl::lexer::clip;
use crate::plan::{ArmPatternView, CallView};
use crate::syntax::lexer::{is_keyword, token_name, TokenView, TypeView};
use crate::syntax::{
    ArmView, EnvPairView, FnStmtView, PartView, StmtView, TemplateView, TopLevelView,
};

verus! {

/// The source that is parsed: the token at its end and its name.
pub struct Source {
    pub eof: TokenView,
    pub name: Seq<char>,
}

/// What parsing gives: a value or an error, and the tokens that are left.
pub type Parsed<V> = (Result<V, ParseErrorView>, Seq<TokenView>);

/// The token ahead; at the end, the end token.
pub open spec fn cur(c: Source, t: Seq<TokenView>) -> TokenView {
    if t.len() > 0 {
        t[0]
    } else {
        c.eof
    }
}

/// The tokens after the one ahead. The end stays.
pub open spec fn rest(t: Seq<TokenView>) -> Seq<TokenView> {
    if t.len() > 0 {
        t.skip(1)
    } else {
        t
    }
}

/// Where a token ends.
pub open spec fn token_end(tok: TokenView) -> usize {
    clip((tok.offset + tok.len) as nat)
}

/// The place of the token ahead; at the end of a text, its last byte.
pub open spec fn span_here(c: Source, t: Seq<TokenView>) -> SourceSpan {
    let tok = cur(c, t);
    if tok.ty is Eof && tok.offset > 0 {
        SourceSpan { offset: (tok.offset - 1) as usize, len: 1 }
    } else {
        SourceSpan { offset: tok.offset, len: tok.len }
    }
}

/// An error at the token ahead.
pub open spec fn error_here(c: Source, t: Seq<TokenView>, msg: Seq<char>) -> ParseErrorView {
    ParseErrorView { span: span_here(c, t), msg }
}

/// A token of the given type.
pub open spec fn expected(
    c: Source,
    t: Seq<TokenView>,
    ty: TypeView,
    context: Seq<char>,
) -> Parsed<()> {
    if cur(c, t).ty == ty {
        (Ok(()), rest(t))
    } else {
        (
            Err(
                error_here(
                    c,
                    t,
                    "expected "@ + token_name(ty) + " "@ + context + ", found "@ + token_name(
                        cur(c, t).ty,
                    ),
                ),
            ),
            t,
        )
    }
}

/// An identifier; `what` is the error on anything else.
pub open spec fn identifier(c: Source, t: Seq<TokenView>, what: Seq<char>) -> Parsed<Seq<char>> {
    match cur(c, t).ty {
        TypeView::Ident(s) => (Ok(s), rest(t)),
        TypeView::Illegal(msg) => (Err(error_here(c, t, msg)), t),
        ty => if is_keyword(ty) {
            (
                Err(
                    error_here(
                        c,
                        t,
                        what + ", found "@ + token_name(ty) + " (reserved keyword)"@,
                    ),
                ),
                t,
            )
        } else {
            (Err(error_here(c, t, what)), t)
        },
    }
}

/// A template.
pub open spec fn template(c: Source, t: Seq<TokenView>) -> Parsed<TemplateView> {
    match cur(c, t).ty {
        TypeView::Template(v) => (Ok(v), rest(t)),
        TypeView::Illegal(msg) => (Err(error_here(c, t, msg)), t),
        ty => (Err(error_here(c, t, "expected template, found "@ + token_name(ty))), t),
    }
}

/// The tokens after a semicolon, where one is ahead.
pub open spec fn skip_semicolon(c: Source, t: Seq<TokenView>) -> Seq<TokenView> {
    if cur(c, t).ty == TypeView::Semicolon {
        rest(t)
    } else {
        t
    }
}

/// A template and a semicolon.
pub open spec fn closed_template(
    c: Source,
    t: Seq<TokenView>,
    context: Seq<char>,
) -> Parsed<TemplateView> {
    match template(c, t) {
        (Err(e), u) => (Err(e), u),
        (Ok(v), u) => match expected(c, u, TypeView::Semicolon, context) {
            (Err(e), w) => (Err(e), w),
            (Ok(_), w) => (Ok(v), w),
        },
    }
}

/// `=`, a template and a semicolon.
pub open spec fn assigned_template(
    c: Source,
    t: Seq<TokenView>,
    equals: Seq<char>,
    context: Seq<char>,
) -> Parsed<TemplateView> {
    match expected(c, t, TypeView::Assign, equals) {
        (Err(e), u) => (Err(e), u),
        (Ok(_), u) => closed_template(c, u, context),
    }
}

/// A name, `=`, a template and a semicolon.
pub open spec fn named_template(
    c: Source,
    t: Seq<TokenView>,
    what: Seq<char>,
    equals: Seq<char>,
    context: Seq<char>,
) -> Parsed<(Seq<char>, TemplateView)> {
    match identifier(c, t, what) {
        (Err(e), u) => (Err(e), u),
        (Ok(name), u) => match assigned_template(c, u, equals, context) {
            (Err(e), v) => (Err(e), v),
            (Ok(value), v) => (Ok((name, value)), v),
        },
    }
}

// ── Statements of a function ─────────────────────────────────────────────────

/// A variable of an `env` block: `KEY = value`.
pub open spec fn env_pair(c: Source, t: Seq<TokenView>) -> Parsed<EnvPairView> {
    match identifier(c, t, "expected identifier in env pair"@) {
        (Err(e), u) => (Err(e), u),
        (Ok(key), u) => match expected(c, u, TypeView::Assign, "in env pair"@) {
            (Err(e), v) => (Err(e), v),
            (Ok(_), v) => match template(c, v) {
                (Err(e), w) => (Err(e), w),
                (Ok(value), w) => (Ok(EnvPairView { key, value }), w),
            },
        },
    }
}

/// The variables of an `env` block, up to the closing bracket.
pub open spec fn env_pairs(c: Source, t: Seq<TokenView>) -> Parsed<Seq<EnvPairView>>
    decreases t.len(),
{
    if cur(c, t).ty == TypeView::RBracket {
        (Ok(Seq::empty()), t)
    } else {
        match env_pair(c, t) {
            (Err(e), u) => (Err(e), u),
            (Ok(pair), u) => if u.len() < t.len() {
                match env_pairs(c, u) {
                    (Err(e), v) => (Err(e), v),
                    (Ok(more), v) => (Ok(seq![pair] + more), v),
                }
            } else {
                arbitrary()
            },
        }
    }
}

/// The text of a template that holds nothing but literal text.
pub open spec fn plain_text(v: TemplateView) -> Option<Seq<char>> {
    if v.parts.len() == 0 {
        Some(Seq::empty())
    } else if v.parts.len() == 1 {
        match v.parts[0] {
            PartView::Lit(s) => Some(s),
            _ => None,
        }
    } else {
        None
    }
}

/// The pattern of an arm: literal text, or `_`.
pub open spec fn arm_pattern(c: Source, t: Seq<TokenView>) -> Parsed<ArmPatternView> {
    match cur(c, t).ty {
        TypeView::Template(v) => match plain_text(v) {
            Some(s) => (Ok(ArmPatternView::Lit(s)), rest(t)),
            None => (Err(error_here(c, t, "case pattern must be literal text"@)), t),
        },
        TypeView::Illegal(msg) => (Err(error_here(c, t, msg)), t),
        ty => if ty == TypeView::Ident("_"@) {
            (Ok(ArmPatternView::Default), rest(t))
        } else {
            (Err(error_here(c, t, "expected case pattern, found "@ + token_name(ty))), t)
        },
    }
}

/// A body in braces.
pub open spec fn block(
    c: Source,
    t: Seq<TokenView>,
    open: Seq<char>,
    close: Seq<char>,
) -> Parsed<Seq<FnStmtView>>
    decreases t.len(), 3int,
{
    match expected(c, t, TypeView::LBrace, open) {
        (Err(e), u) => (Err(e), u),
        (Ok(_), u) => if u.len() < t.len() {
            match statements(c, u) {
                (Err(e), v) => (Err(e), v),
                (Ok(body), v) => match expected(c, v, TypeView::RBrace, close) {
                    (Err(e), w) => (Err(e), w),
                    (Ok(_), w) => (Ok(body), w),
                },
            }
        } else {
            arbitrary()
        },
    }
}

/// Statements, up to the closing brace.
pub open spec fn statements(c: Source, t: Seq<TokenView>) -> Parsed<Seq<FnStmtView>>
    decreases t.len(), 2int,
{
    if cur(c, t).ty == TypeView::RBrace {
        (Ok(Seq::empty()), t)
    } else {
        match statement(c, t) {
            (Err(e), u) => (Err(e), u),
            (Ok(s), u) => if u.len() < t.len() {
                match statements(c, u) {
                    (Err(e), v) => (Err(e), v),
                    (Ok(more), v) => (Ok(seq![s] + more), v),
                }
            } else {
                arbitrary()
            },
        }
    }
}

/// An `env` block.
pub open spec fn env_block(c: Source, t: Seq<TokenView>) -> Parsed<FnStmtView>
    decreases t.len(), 0int,
{
    match expected(c, rest(t), TypeView::LBracket, "after `env`"@) {
        (Err(e), u) => (Err(e), u),
        (Ok(_), u) => match env_pairs(c, u) {
            (Err(e), v) => (Err(e), v),
            (Ok(pairs), v) => match expected(c, v, TypeView::RBracket, "to close env pairs"@) {
                (Err(e), w) => (Err(e), w),
                (Ok(_), w) => if w.len() < t.len() {
                    match block(c, w, "to open env block body"@, "to close env block body"@) {
                        (Err(e), x) => (Err(e), x),
                        (Ok(body), x) => (
                            Ok(FnStmtView::EnvBlock { pairs, body }),
                            skip_semicolon(c, x),
                        ),
                    }
                } else {
                    arbitrary()
                },
            },
        },
    }
}

/// An arm of a `switch` block.
pub open spec fn switch_arm(c: Source, t: Seq<TokenView>) -> Parsed<ArmView>
    decreases t.len(), 0int,
{
    match expected(c, t, TypeView::Case, "in switch block"@) {
        (Err(e), u) => (Err(e), u),
        (Ok(_), u) => match arm_pattern(c, u) {
            (Err(e), v) => (Err(e), v),
            (Ok(pattern), v) => if v.len() < t.len() {
                match block(c, v, "after case pattern"@, "to close case arm body"@) {
                    (Err(e), w) => (Err(e), w),
                    (Ok(body), w) => (Ok(ArmView { pattern, body }), skip_semicolon(c, w)),
                }
            } else {
                arbitrary()
            },
        },
    }
}

/// The arms of a `switch` block, up to the closing brace.
pub open spec fn switch_arms(c: Source, t: Seq<TokenView>) -> Parsed<Seq<ArmView>>
    decreases t.len(), 1int,
{
    if cur(c, t).ty == TypeView::RBrace {
        (Ok(Seq::empty()), t)
    } else {
        match switch_arm(c, t) {
            (Err(e), u) => (Err(e), u),
            (Ok(arm), u) => if u.len() < t.len() {
                match switch_arms(c, u) {
                    (Err(e), v) => (Err(e), v),
                    (Ok(more), v) => (Ok(seq![arm] + more), v),
                }
            } else {
                arbitrary()
            },
        }
    }
}

/// A `switch` block.
pub open spec fn switch_block(c: Source, t: Seq<TokenView>) -> Parsed<FnStmtView>
    decreases t.len(), 0int,
{
    match template(c, rest(t)) {
        (Err(e), u) => (Err(e), u),
        (Ok(subject), u) => match expected(c, u, TypeView::LBrace, "to open switch arms"@) {
            (Err(e), v) => (Err(e), v),
            (Ok(_), v) => if v.len() < t.len() {
                match switch_arms(c, v) {
                    (Err(e), w) => (Err(e), w),
                    (Ok(arms), w) => match expected(
                        c,
                        w,
                        TypeView::RBrace,
                        "to close switch block"@,
                    ) {
                        (Err(e), x) => (Err(e), x),
                        (Ok(_), x) => (
                            Ok(FnStmtView::Switch { subject, arms }),
                            skip_semicolon(c, x),
                        ),
                    },
                }
            } else {
                arbitrary()
            },
        },
    }
}

/// A statement in the body of a function.
pub open spec fn statement(c: Source, t: Seq<TokenView>) -> Parsed<FnStmtView>
    decreases t.len(), 1int,
{
    match cur(c, t).ty {
        TypeView::Illegal(msg) => (Err(error_here(c, t, msg)), t),
        TypeView::Log => match closed_template(c, rest(t), "after `log`"@) {
            (Err(e), u) => (Err(e), u),
            (Ok(value), u) => (Ok(FnStmtView::Log(value)), u),
        },
        TypeView::Cd => match closed_template(c, rest(t), "after `cd`"@) {
            (Err(e), u) => (Err(e), u),
            (Ok(value), u) => (Ok(FnStmtView::Cd(value)), u),
        },
        TypeView::Exec => match closed_template(c, rest(t), "after `exec`"@) {
            (Err(e), u) => (Err(e), u),
            (Ok(value), u) => (Ok(FnStmtView::Bind { target: None, value }), u),
        },
        TypeView::Template(_) => match closed_template(c, t, "after command"@) {
            (Err(e), u) => (Err(e), u),
            (Ok(value), u) => (Ok(FnStmtView::Bind { target: None, value }), u),
        },
        TypeView::Bind => match named_template(
            c,
            rest(t),
            "expected variable name"@,
            "in `bind`"@,
            "after `bind`"@,
        ) {
            (Err(e), u) => (Err(e), u),
            (Ok((name, value)), u) => (
                Ok(FnStmtView::Bind { target: Some(name), value }),
                u,
            ),
        },
        TypeView::Env => env_block(c, t),
        TypeView::Switch => switch_block(c, t),
        ty => (
            Err(
                error_here(
                    c,
                    t,
                    "expected log, exec, bind, cd, env, or switch, found "@ + token_name(ty),
                ),
            ),
            t,
        ),
    }
}

// ── Declarations ─────────────────────────────────────────────────────────────

/// A variable: `var name = value;`.
pub open spec fn var_stmt(c: Source, t: Seq<TokenView>) -> Parsed<StmtView> {
    let tok = cur(c, t);
    match named_template(
        c,
        rest(t),
        "expected variable name"@,
        "in variable declaration"@,
        "after variable declaration"@,
    ) {
        (Err(e), u) => (Err(e), u),
        (Ok((name, value)), u) => (
            Ok(StmtView::Var { name, value, offset: tok.offset, len: tok.len }),
            u,
        ),
    }
}

/// A function; a semicolon may follow.
pub open spec fn fn_stmt(c: Source, t: Seq<TokenView>) -> Parsed<StmtView> {
    let tok = cur(c, t);
    match identifier(c, rest(t), "expected function name"@) {
        (Err(e), u) => (Err(e), u),
        (Ok(name), u) => match block(c, u, "after function name"@, "to close function body"@) {
            (Err(e), v) => (Err(e), v),
            (Ok(body), v) => (
                Ok(StmtView::Fn { name, body, offset: tok.offset, len: tok.len }),
                skip_semicolon(c, v),
            ),
        },
    }
}

/// A call of a run: `project::function`.
pub open spec fn run_call(c: Source, t: Seq<TokenView>) -> Parsed<CallView> {
    match identifier(c, t, "expected project namespace in run reference"@) {
        (Err(e), u) => (Err(e), u),
        (Ok(project), u) => match expected(c, u, TypeView::NamespaceSep, "in run reference"@) {
            (Err(e), v) => (Err(e), v),
            (Ok(_), v) => match identifier(
                c,
                v,
                "expected function name after `::` in run reference"@,
            ) {
                (Err(e), w) => (Err(e), w),
                (Ok(function), w) => (Ok(CallView { project, function }), w),
            },
        },
    }
}

/// The chains of a run up to the closing brace, where `chain` is what has been
/// read of the current one. `=>` continues a chain and `;` closes it; the last
/// `;` may be missing.
pub open spec fn run_chains(c: Source, t: Seq<TokenView>, chain: Seq<CallView>) -> Parsed<
    Seq<Seq<CallView>>,
>
    decreases t.len(),
{
    if cur(c, t).ty == TypeView::RBrace {
        (
            Ok(
                if chain.len() > 0 {
                    seq![chain]
                } else {
                    Seq::empty()
                },
            ),
            t,
        )
    } else {
        match run_call(c, t) {
            (Err(e), u) => (Err(e), u),
            (Ok(call), u) => match cur(c, u).ty {
                TypeView::Arrow => if rest(u).len() < t.len() {
                    run_chains(c, rest(u), chain.push(call))
                } else {
                    arbitrary()
                },
                TypeView::Semicolon => if rest(u).len() < t.len() {
                    match run_chains(c, rest(u), Seq::empty()) {
                        (Err(e), v) => (Err(e), v),
                        (Ok(more), v) => (Ok(seq![chain.push(call)] + more), v),
                    }
                } else {
                    arbitrary()
                },
                TypeView::RBrace => (Ok(seq![chain.push(call)]), u),
                other => (
                    Err(
                        error_here(
                            c,
                            u,
                            "expected `;`, `=>`, or `}` after run reference, found "@ + token_name(
                                other,
                            ),
                        ),
                    ),
                    u,
                ),
            },
        }
    }
}

/// A run; a semicolon may follow.
pub open spec fn run_stmt(c: Source, t: Seq<TokenView>) -> Parsed<StmtView> {
    let tok = cur(c, t);
    match identifier(c, rest(t), "expected run block name"@) {
        (Err(e), u) => (Err(e), u),
        (Ok(name), u) => match expected(c, u, TypeView::LBrace, "after run block name"@) {
            (Err(e), v) => (Err(e), v),
            (Ok(_), v) => match run_chains(c, v, Seq::empty()) {
                (Err(e), w) => (Err(e), w),
                (Ok(calls), w) => match expected(
                    c,
                    w,
                    TypeView::RBrace,
                    "to close run block"@,
                ) {
                    (Err(e), x) => (Err(e), x),
                    (Ok(_), x) => (
                        Ok(
                            StmtView::Run {
                                name,
                                calls,
                                offset: tok.offset,
                                len: distance(tok.offset, token_end(cur(c, w))),
                            },
                        ),
                        skip_semicolon(c, x),
                    ),
                },
            },
        },
    }
}

/// The field that a word names: `url`, `dir` or `branch`.
pub open spec fn named_field(s: Seq<char>) -> Option<ProjectField> {
    match ProjectField::named(s) {
        Some(ProjectField::Url) => Some(ProjectField::Url),
        Some(ProjectField::Dir) => Some(ProjectField::Dir),
        Some(ProjectField::Branch) => Some(ProjectField::Branch),
        _ => None,
    }
}

/// Whether a field is ahead.
pub open spec fn starts_field(c: Source, t: Seq<TokenView>) -> bool {
    match cur(c, t).ty {
        TypeView::Sync => true,
        TypeView::Ident(s) => named_field(s) is Some,
        _ => false,
    }
}

/// The name of a field.
pub open spec fn field_key(c: Source, t: Seq<TokenView>) -> Parsed<ProjectField> {
    match cur(c, t).ty {
        TypeView::Sync => (Ok(ProjectField::Sync), rest(t)),
        TypeView::Ident(s) => match named_field(s) {
            Some(key) => (Ok(key), rest(t)),
            None => (Err(error_here(c, rest(t), "unknown project field: "@ + s)), rest(t)),
        },
        _ => (Err(error_here(c, t, "expected project field name"@)), t),
    }
}

/// A field: name, `=` and value; a semicolon may follow. A field that is among
/// those seen is refused.
pub open spec fn field_stmt(c: Source, t: Seq<TokenView>, seen: Seq<ProjectField>) -> Parsed<
    (ProjectField, StmtView),
> {
    let tok = cur(c, t);
    match field_key(c, t) {
        (Err(e), u) => (Err(e), u),
        (Ok(key), u) => if seen.contains(key) {
            (Err(error_here(c, u, "duplicate project field: "@ + key.name())), u)
        } else {
            match expected(c, u, TypeView::Assign, "in project field"@) {
                (Err(e), v) => (Err(e), v),
                (Ok(_), v) => match template(c, v) {
                    (Err(e), w) => (Err(e), w),
                    (Ok(value), w) => {
                        let x = skip_semicolon(c, w);
                        (
                            Ok(
                                (
                                    key,
                                    StmtView::Field {
                                        key,
                                        value,
                                        offset: tok.offset,
                                        len: distance(tok.offset, cur(c, x).offset),
                                    },
                                ),
                            ),
                            x,
                        )
                    },
                },
            }
        },
    }
}

/// Fields, up to the closing brace.
pub open spec fn fields(c: Source, t: Seq<TokenView>, seen: Seq<ProjectField>) -> Parsed<
    Seq<StmtView>,
>
    decreases t.len(),
{
    if cur(c, t).ty == TypeView::RBrace {
        (Ok(Seq::empty()), t)
    } else {
        match field_stmt(c, t, seen) {
            (Err(e), u) => (Err(e), u),
            (Ok((key, field)), u) => if u.len() < t.len() {
                match fields(c, u, seen.push(key)) {
                    (Err(e), v) => (Err(e), v),
                    (Ok(more), v) => (Ok(seq![field] + more), v),
                }
            } else {
                arbitrary()
            },
        }
    }
}

/// A declaration in the body of a project.
pub open spec fn project_item(c: Source, t: Seq<TokenView>) -> Parsed<StmtView> {
    match cur(c, t).ty {
        TypeView::Var => var_stmt(c, t),
        TypeView::Fn => fn_stmt(c, t),
        _ => (Err(error_here(c, t, "expected `var` or `fn` in project body"@)), t),
    }
}

/// Declarations, up to the closing brace.
pub open spec fn project_items(c: Source, t: Seq<TokenView>) -> Parsed<Seq<StmtView>>
    decreases t.len(),
{
    if cur(c, t).ty == TypeView::RBrace {
        (Ok(Seq::empty()), t)
    } else {
        match project_item(c, t) {
            (Err(e), u) => (Err(e), u),
            (Ok(item), u) => if u.len() < t.len() {
                match project_items(c, u) {
                    (Err(e), v) => (Err(e), v),
                    (Ok(more), v) => (Ok(seq![item] + more), v),
                }
            } else {
                arbitrary()
            },
        }
    }
}

/// A project: a block of fields or a block of declarations.
pub open spec fn project_stmt(c: Source, t: Seq<TokenView>) -> Parsed<StmtView> {
    match identifier(c, rest(t), "expected project name"@) {
        (Err(e), u) => (Err(e), u),
        (Ok(name), u) => match expected(c, u, TypeView::LBrace, "after project name"@) {
            (Err(e), v) => (Err(e), v),
            (Ok(_), v) => if starts_field(c, v) {
                match fields(c, v, Seq::empty()) {
                    (Err(e), w) => (Err(e), w),
                    (Ok(fields), w) => match expected(
                        c,
                        w,
                        TypeView::RBrace,
                        "to close project field list"@,
                    ) {
                        (Err(e), x) => (Err(e), x),
                        (Ok(_), x) => (
                            Ok(StmtView::Project { name, fields, body: Seq::empty() }),
                            skip_semicolon(c, x),
                        ),
                    },
                }
            } else {
                match project_items(c, v) {
                    (Err(e), w) => (Err(e), w),
                    (Ok(body), w) => match expected(
                        c,
                        w,
                        TypeView::RBrace,
                        "to close project body"@,
                    ) {
                        (Err(e), x) => (Err(e), x),
                        (Ok(_), x) => (
                            Ok(StmtView::Project { name, fields: Seq::empty(), body }),
                            skip_semicolon(c, x),
                        ),
                    },
                }
            },
        },
    }
}

/// The shell: `shell = value;`.
pub open spec fn shell_stmt(c: Source, t: Seq<TokenView>) -> Parsed<StmtView> {
    let tok = cur(c, t);
    match assigned_template(c, rest(t), "after `shell`"@, "after shell declaration"@) {
        (Err(e), u) => (Err(e), u),
        (Ok(value), u) => (
            Ok(
                StmtView::Shell {
                    value,
                    offset: tok.offset,
                    len: tok.len,
                    source_name: c.name,
                },
            ),
            u,
        ),
    }
}

/// The timeout: `timeout = value;`.
pub open spec fn timeout_stmt(c: Source, t: Seq<TokenView>) -> Parsed<StmtView> {
    let tok = cur(c, t);
    match assigned_template(c, rest(t), "after `timeout`"@, "after timeout declaration"@) {
        (Err(e), u) => (Err(e), u),
        (Ok(value), u) => (
            Ok(
                StmtView::Timeout {
                    value,
                    offset: tok.offset,
                    len: tok.len,
                    source_name: c.name,
                },
            ),
            u,
        ),
    }
}

/// A declaration at the top of a file.
#[verifier::opaque]
pub open spec fn declaration(c: Source, t: Seq<TokenView>) -> Parsed<StmtView> {
    match cur(c, t).ty {
        TypeView::Illegal(msg) => (Err(error_here(c, t, msg)), t),
        TypeView::Shell => shell_stmt(c, t),
        TypeView::Timeout => timeout_stmt(c, t),
        TypeView::Var => var_stmt(c, t),
        TypeView::Sync => project_stmt(c, t),
        TypeView::Pr => project_stmt(c, t),
        TypeView::Fn => fn_stmt(c, t),
        TypeView::Run => run_stmt(c, t),
        ty => (
            Err(
                error_here(
                    c,
                    t,
                    "expected import, shell, timeout, var, sync, pr, fn, or run, found "@
                        + token_name(ty),
                ),
            ),
            t,
        ),
    }
}

/// An item of a file, or nothing at the end.
#[verifier::opaque]
pub open spec fn item(c: Source, t: Seq<TokenView>) -> Parsed<Option<TopLevelView>> {
    match cur(c, t).ty {
        TypeView::Eof => (Ok(None), t),
        TypeView::Import => match closed_template(c, rest(t), "after import path"@) {
            (Err(e), u) => (Err(e), u),
            (Ok(path), u) => (Ok(Some(TopLevelView::Import(path))), u),
        },
        _ => match declaration(c, t) {
            (Err(e), u) => (Err(e), u),
            (Ok(s), u) => (Ok(Some(TopLevelView::Stmt(s))), u),
        },
    }
}

/// The items of a file, or the first error in it.
pub open spec fn file(c: Source, t: Seq<TokenView>) -> Result<Seq<TopLevelView>, ParseErrorView>
    decreases t.len(),
{
    match item(c, t) {
        (Err(e), _) => Err(e),
        (Ok(None), _) => Ok(Seq::empty()),
        (Ok(Some(x)), u) => if u.len() < t.len() {
            match file(c, u) {
                Err(e) => Err(e),
                Ok(more) => Ok(seq![x] + more),
            }
        } else {
            arbitrary()
        },
    }
}

} // verus!
