//! The grammar of the language, as functions from the tokens ahead to what they
//! stand for and the tokens that are left.
use vstd::prelude::*;
use crate::dsl::ast::{FnRefView, ProjectField, StmtView, TopLevelView};
use crate::dsl::error::{ParseErrorView, SourceSpan};
use crate::dsl::fnstmt::{CaseArmView, FnStmtView};
use crate::dsl::lexer::{clip, until};
use crate::dsl::syntax::{CasePatternView, EnvPairView, ExprView, PartView, VarType};
use crate::dsl::token::{is_keyword, token_name, type_title, TokenView, TypeView};
use crate::text::byte_len;

verus! {

/// The source that is parsed: the token at its end, its length in bytes and its
/// name.
pub struct Source {
    pub eof: TokenView,
    pub len: usize,
    pub name: Seq<char>,
}

/// What parsing gives: a value or an error, and the tokens that are left.
pub type Parsed<V> = (Result<V, ParseErrorView>, Seq<TokenView>);

/// The token ahead; at the end, the end token.
pub open spec fn cur(c: Source, t: Seq<TokenView>) -> TokenView {
    if t.len() > 0 {
        t[0]
    } else {
        c.eof
    }
}

/// The tokens after the one ahead. The end stays.
pub open spec fn rest(t: Seq<TokenView>) -> Seq<TokenView> {
    if t.len() > 0 {
        t.skip(1)
    } else {
        t
    }
}

/// Where a token ends.
pub open spec fn token_end(tok: TokenView) -> usize {
    clip((tok.offset + tok.len) as nat)
}

/// The distance from `a` to `b`, or nothing where `b` comes first.
pub open spec fn distance(a: usize, b: usize) -> usize {
    if a <= b {
        (b - a) as usize
    } else {
        0
    }
}

/// The place of the token ahead; at the end of a text, its last byte.
pub open spec fn span_here(c: Source, t: Seq<TokenView>) -> SourceSpan {
    let tok = cur(c, t);
    if tok.len == 0 && tok.offset >= c.len && c.len > 0 {
        SourceSpan { offset: (c.len - 1) as usize, len: 1 }
    } else if tok.len == 0 {
        SourceSpan {
            offset: tok.offset,
            len: if tok.offset < c.len {
                1
            } else {
                0
            },
        }
    } else {
        SourceSpan { offset: tok.offset, len: tok.len }
    }
}

/// An error at the token ahead.
pub open spec fn error_here(c: Source, t: Seq<TokenView>, msg: Seq<char>) -> ParseErrorView {
    ParseErrorView { span: span_here(c, t), msg }
}

/// A token of the given type.
pub open spec fn expected(
    c: Source,
    t: Seq<TokenView>,
    ty: TypeView,
    context: Seq<char>,
) -> Parsed<()> {
    if cur(c, t).ty == ty {
        (Ok(()), rest(t))
    } else {
        (
            Err(
                error_here(
                    c,
                    t,
                    "expected "@ + type_title(ty) + " "@ + context + ", found "@ + token_name(
                        cur(c, t).ty,
                    ),
                ),
            ),
            t,
        )
    }
}

/// An identifier; `found` says what a keyword in its place is called a
/// substitute for, and `fallback` is the error on anything else.
pub open spec fn identifier(
    c: Source,
    t: Seq<TokenView>,
    found: Seq<char>,
    fallback: Seq<char>,
) -> Parsed<Seq<char>> {
    match cur(c, t).ty {
        TypeView::Ident(s) => (Ok(s), rest(t)),
        ty => if is_keyword(ty) {
            (
                Err(
                    error_here(
                        c,
                        t,
                        found + ", found "@ + token_name(ty) + " (reserved keyword)"@,
                    ),
                ),
                t,
            )
        } else {
            (Err(error_here(c, t, fallback)), t)
        },
    }
}

/// The name of a declared thing.
pub open spec fn declared_name(
    c: Source,
    t: Seq<TokenView>,
    kind: Seq<char>,
    fallback: Seq<char>,
) -> Parsed<Seq<char>> {
    identifier(c, t, "expected "@ + kind + " name"@, fallback)
}

/// The error of an illegal token, where the token ahead is one.
pub open spec fn illegal(c: Source, t: Seq<TokenView>) -> Option<ParseErrorView> {
    match cur(c, t).ty {
        TypeView::Illegal(msg) => Some(error_here(c, t, msg)),
        _ => None,
    }
}

/// The error on a token that starts no statement.
pub open spec fn no_statement(c: Source, t: Seq<TokenView>, want: Seq<char>) -> ParseErrorView {
    if cur(c, t).ty == TypeView::Ident("_"@) {
        error_here(c, t, "`_` is only valid as a case pattern"@)
    } else {
        error_here(c, t, "expected "@ + want + ", found "@ + token_name(cur(c, t).ty))
    }
}

// ── Expressions ──────────────────────────────────────────────────────────────

/// A reference to a variable, after its `$`: the namespace, the name, and where
/// it ends.
pub open spec fn reference(
    c: Source,
    t: Seq<TokenView>,
    msg: Seq<char>,
) -> Parsed<(Seq<char>, Seq<char>, usize)> {
    match identifier(c, t, msg, msg) {
        (Err(e), u) => (Err(e), u),
        (Ok(first), u) => if cur(c, u).ty == TypeView::NamespaceSep {
            let v = rest(u);
            match identifier(c, v, msg, msg) {
                (Err(e), w) => (Err(e), w),
                (Ok(second), w) => if cur(c, w).ty == TypeView::NamespaceSep {
                    (
                        Err(error_here(c, w, "nested namespace qualifier `::` is not allowed"@)),
                        w,
                    )
                } else {
                    (Ok((first, second, token_end(cur(c, v)))), w)
                },
            }
        } else {
            (Ok((Seq::empty(), first, token_end(cur(c, t)))), u)
        },
    }
}

pub open spec fn closing_brace() -> spec_fn(char) -> bool {
    |ch: char| ch == '}'
}

/// The first position from `i` on at which `::` stands, or the end.
pub open spec fn separator_at(s: Seq<char>, i: int) -> int
    decreases s.len() - i,
{
    if i < 0 || i + 1 >= s.len() {
        s.len() as int
    } else if s[i] == ':' && s[i + 1] == ':' {
        i
    } else {
        separator_at(s, i + 1)
    }
}

/// The variable that the text between `${` and `}` names, or what is wrong with it.
pub open spec fn variable(name: Seq<char>) -> Result<PartView, Seq<char>> {
    let k = separator_at(name, 0);
    if name.len() == 0 {
        Err("empty variable name in template"@)
    } else if k >= name.len() {
        Ok(PartView { is_var: true, namespace: Seq::empty(), value: name })
    } else if k == 0 || k + 2 >= name.len() {
        Err("empty variable name in template"@)
    } else if separator_at(name, k + 2) < name.len() {
        Err("nested namespace qualifier `::` is not allowed"@)
    } else {
        Ok(PartView { is_var: true, namespace: name.take(k), value: name.skip(k + 2) })
    }
}

/// Literal text as a piece, where there is any.
pub open spec fn literal(text: Seq<char>) -> Seq<PartView> {
    if text.len() > 0 {
        seq![PartView { is_var: false, namespace: Seq::empty(), value: text }]
    } else {
        Seq::empty()
    }
}

/// The error at position `i` of the text of a token at `offset`.
pub open spec fn text_error(s: Seq<char>, i: int, offset: usize, msg: Seq<char>) -> ParseErrorView {
    ParseErrorView {
        span: SourceSpan { offset: clip((offset + 1 + byte_len(s.take(i))) as nat), len: 3 },
        msg,
    }
}

/// The pieces of a text in backticks from position `i` on, where `text` is
/// literal text that came just before.
pub open spec fn pieces(
    s: Seq<char>,
    i: int,
    text: Seq<char>,
    offset: usize,
) -> Result<Seq<PartView>, ParseErrorView>
    decreases s.len() - i,
    via pieces_decreases
{
    if i < 0 || i >= s.len() {
        Ok(literal(text))
    } else if s[i] == '$' && i + 1 < s.len() && s[i + 1] == '{' {
        let close = until(s, i + 2, closing_brace());
        if close >= s.len() {
            Err(text_error(s, i, offset, "unclosed variable interpolation"@))
        } else {
            match variable(s.subrange(i + 2, close)) {
                Err(msg) => Err(text_error(s, i, offset, msg)),
                Ok(part) => match pieces(s, close + 1, Seq::empty(), offset) {
                    Err(e) => Err(e),
                    Ok(more) => Ok(literal(text) + seq![part] + more),
                },
            }
        }
    } else {
        pieces(s, i + 1, text.push(s[i]), offset)
    }
}

#[via_fn]
proof fn pieces_decreases(s: Seq<char>, i: int, text: Seq<char>, offset: usize) {
    if 0 <= i && i + 1 < s.len() {
        crate::dsl::lexer::lemma_until(s, i + 2, closing_brace());
    }
}

/// An expression.
pub open spec fn expression(c: Source, t: Seq<TokenView>) -> Parsed<ExprView> {
    let tok = cur(c, t);
    match tok.ty {
        TypeView::Illegal(msg) => (
            Err(ParseErrorView { span: SourceSpan { offset: tok.offset, len: tok.len }, msg }),
            t,
        ),
        TypeView::Backtick(content) => match pieces(content, 0, Seq::empty(), tok.offset) {
            Err(e) => (Err(e), rest(t)),
            Ok(parts) => (
                Ok(
                    ExprView::BacktickLit {
                        parts,
                        offset: tok.offset,
                        len: tok.len,
                        source_name: c.name,
                    },
                ),
                rest(t),
            ),
        },
        TypeView::Dollar => match reference(c, rest(t), "expected identifier after `$`"@) {
            (Err(e), u) => (Err(e), u),
            (Ok((namespace, name, end)), u) => (
                Ok(
                    ExprView::VarRef {
                        name,
                        namespace,
                        offset: tok.offset,
                        len: distance(tok.offset, end),
                        source_name: c.name,
                    },
                ),
                u,
            ),
        },
        ty => if ty == TypeView::Ident("_"@) {
            (Err(error_here(c, t, "`_` is only valid as a case pattern"@)), t)
        } else {
            (
                Err(
                    error_here(
                        c,
                        t,
                        "expected backtick string or variable reference, found "@ + token_name(ty),
                    ),
                ),
                t,
            )
        },
    }
}

// ── Statements of a function ─────────────────────────────────────────────────

/// A word, an expression and a semicolon: the expression.
pub open spec fn simple_statement(
    c: Source,
    t: Seq<TokenView>,
    context: Seq<char>,
) -> Parsed<ExprView> {
    match expression(c, rest(t)) {
        (Err(e), u) => (Err(e), u),
        (Ok(value), u) => match expected(c, u, TypeView::Semicolon, context) {
            (Err(e), v) => (Err(e), v),
            (Ok(_), v) => (Ok(value), v),
        },
    }
}

/// The type after `var`.
pub open spec fn var_type(c: Source, t: Seq<TokenView>) -> Parsed<VarType> {
    match cur(c, t).ty {
        TypeView::StringKw => (Ok(VarType::String), rest(t)),
        TypeView::Shell => (Ok(VarType::Shell), rest(t)),
        _ => (Err(error_here(c, t, "expected 'string' or 'shell'"@)), t),
    }
}

/// The declaration of a variable: `var`, type, name, `=`, value and `;`.
pub open spec fn variable_declaration(
    c: Source,
    t: Seq<TokenView>,
) -> Parsed<(VarType, Seq<char>, ExprView)> {
    match var_type(c, rest(t)) {
        (Err(e), u) => (Err(e), u),
        (Ok(var_type), u) => match declared_name(c, u, "variable"@, "expected variable name"@) {
            (Err(e), v) => (Err(e), v),
            (Ok(name), v) => match expected(
                c,
                v,
                TypeView::Assign,
                "in variable declaration"@,
            ) {
                (Err(e), w) => (Err(e), w),
                (Ok(_), w) => match expression(c, w) {
                    (Err(e), x) => (Err(e), x),
                    (Ok(value), x) => match expected(
                        c,
                        x,
                        TypeView::Semicolon,
                        "after variable declaration"@,
                    ) {
                        (Err(e), y) => (Err(e), y),
                        (Ok(_), y) => (Ok((var_type, name, value)), y),
                    },
                },
            },
        },
    }
}

/// A variable of an `env` block: `KEY = value`.
pub open spec fn env_pair(c: Source, t: Seq<TokenView>) -> Parsed<EnvPairView> {
    match identifier(
        c,
        t,
        "expected identifier in env pair"@,
        "expected identifier in env pair"@,
    ) {
        (Err(e), u) => (Err(e), u),
        (Ok(key), u) => match expected(c, u, TypeView::Assign, "in env pair"@) {
            (Err(e), v) => (Err(e), v),
            (Ok(_), v) => match expression(c, v) {
                (Err(e), w) => (Err(e), w),
                (Ok(value), w) => (Ok(EnvPairView { key, value }), w),
            },
        },
    }
}

/// The variables of an `env` block, up to the closing bracket.
pub open spec fn env_pairs(c: Source, t: Seq<TokenView>) -> Parsed<Seq<EnvPairView>>
    decreases t.len(),
{
    if cur(c, t).ty == TypeView::RBracket {
        (Ok(Seq::empty()), t)
    } else {
        match env_pair(c, t) {
            (Err(e), u) => (Err(e), u),
            (Ok(pair), u) => if u.len() < t.len() {
                match env_pairs(c, u) {
                    (Err(e), v) => (Err(e), v),
                    (Ok(more), v) => (Ok(seq![pair] + more), v),
                }
            } else {
                arbitrary()
            },
        }
    }
}

/// The pattern of an arm.
pub open spec fn case_pattern(c: Source, t: Seq<TokenView>) -> Parsed<CasePatternView> {
    let tok = cur(c, t);
    match tok.ty {
        TypeView::Dollar => match reference(
            c,
            rest(t),
            "expected identifier after `$` in case pattern"@,
        ) {
            (Err(e), u) => (Err(e), u),
            (Ok((namespace, name, end)), u) => (
                Ok(
                    CasePatternView::VarRef {
                        name,
                        namespace,
                        offset: tok.offset,
                        len: distance(tok.offset, end),
                        source_name: c.name,
                    },
                ),
                u,
            ),
        },
        TypeView::Backtick(content) => match pieces(content, 0, Seq::empty(), tok.offset) {
            Err(e) => (Err(e), rest(t)),
            Ok(parts) => (
                Ok(
                    CasePatternView::Literal {
                        parts,
                        offset: tok.offset,
                        len: tok.len,
                        source_name: c.name,
                    },
                ),
                rest(t),
            ),
        },
        ty => if ty == TypeView::Ident("_"@) {
            (Ok(CasePatternView::Default), rest(t))
        } else {
            (
                Err(
                    error_here(
                        c,
                        t,
                        "expected pattern before "@ + token_name(ty)
                            + "; are you missing a case arm pattern?"@,
                    ),
                ),
                t,
            )
        },
    }
}

/// A body in braces: the opening brace, the statements, the closing brace.
pub open spec fn block(
    c: Source,
    t: Seq<TokenView>,
    open: Seq<char>,
    close: Seq<char>,
) -> Parsed<Seq<FnStmtView>>
    decreases t.len(), 3int,
{
    match expected(c, t, TypeView::LBrace, open) {
        (Err(e), u) => (Err(e), u),
        (Ok(_), u) => if u.len() < t.len() {
            match statements(c, u) {
                (Err(e), v) => (Err(e), v),
                (Ok(body), v) => match expected(c, v, TypeView::RBrace, close) {
                    (Err(e), w) => (Err(e), w),
                    (Ok(_), w) => (Ok(body), w),
                },
            }
        } else {
            arbitrary()
        },
    }
}

/// Statements, up to the closing brace.
pub open spec fn statements(c: Source, t: Seq<TokenView>) -> Parsed<Seq<FnStmtView>>
    decreases t.len(), 2int,
{
    if cur(c, t).ty == TypeView::RBrace {
        (Ok(Seq::empty()), t)
    } else {
        match statement(c, t) {
            (Err(e), u) => (Err(e), u),
            (Ok(s), u) => if u.len() < t.len() {
                match statements(c, u) {
                    (Err(e), v) => (Err(e), v),
                    (Ok(more), v) => (Ok(seq![s] + more), v),
                }
            } else {
                arbitrary()
            },
        }
    }
}

/// An `env` block.
pub open spec fn env_block(c: Source, t: Seq<TokenView>) -> Parsed<FnStmtView>
    decreases t.len(), 0int,
{
    match expected(c, rest(t), TypeView::LBracket, "after `env`"@) {
        (Err(e), u) => (Err(e), u),
        (Ok(_), u) => match env_pairs(c, u) {
            (Err(e), v) => (Err(e), v),
            (Ok(pairs), v) => match expected(c, v, TypeView::RBracket, "to close env pairs"@) {
                (Err(e), w) => (Err(e), w),
                (Ok(_), w) => if w.len() < t.len() {
                    match block(c, w, "to open env block body"@, "to close env block body"@) {
                        (Err(e), x) => (Err(e), x),
                        (Ok(body), x) => match expected(
                            c,
                            x,
                            TypeView::Semicolon,
                            "after env block"@,
                        ) {
                            (Err(e), y) => (Err(e), y),
                            (Ok(_), y) => (Ok(FnStmtView::EnvBlock { pairs, body }), y),
                        },
                    }
                } else {
                    arbitrary()
                },
            },
        },
    }
}

/// An arm of a `case` block.
pub open spec fn case_arm(c: Source, t: Seq<TokenView>) -> Parsed<CaseArmView>
    decreases t.len(), 0int,
{
    match case_pattern(c, t) {
        (Err(e), u) => (Err(e), u),
        (Ok(pattern), u) => if u.len() < t.len() {
            match block(c, u, "after case pattern"@, "to close case arm body"@) {
                (Err(e), v) => (Err(e), v),
                (Ok(body), v) => match expected(c, v, TypeView::Semicolon, "after case arm"@) {
                    (Err(e), w) => (Err(e), w),
                    (Ok(_), w) => (Ok(CaseArmView { pattern, body }), w),
                },
            }
        } else {
            arbitrary()
        },
    }
}

/// The arms of a `case` block, up to the closing brace.
pub open spec fn case_arms(c: Source, t: Seq<TokenView>) -> Parsed<Seq<CaseArmView>>
    decreases t.len(), 1int,
{
    if cur(c, t).ty == TypeView::RBrace {
        (Ok(Seq::empty()), t)
    } else {
        match case_arm(c, t) {
            (Err(e), u) => (Err(e), u),
            (Ok(arm), u) => if u.len() < t.len() {
                match case_arms(c, u) {
                    (Err(e), v) => (Err(e), v),
                    (Ok(more), v) => (Ok(seq![arm] + more), v),
                }
            } else {
                arbitrary()
            },
        }
    }
}

/// A `case` block.
pub open spec fn case_block(c: Source, t: Seq<TokenView>) -> Parsed<FnStmtView>
    decreases t.len(), 0int,
{
    match expression(c, rest(t)) {
        (Err(e), u) => (Err(e), u),
        (Ok(condition), u) => match expected(c, u, TypeView::LBrace, "to open case arms"@) {
            (Err(e), v) => (Err(e), v),
            (Ok(_), v) => if v.len() < t.len() {
                match case_arms(c, v) {
                    (Err(e), w) => (Err(e), w),
                    (Ok(scopes), w) => match expected(
                        c,
                        w,
                        TypeView::RBrace,
                        "to close case block"@,
                    ) {
                        (Err(e), x) => (Err(e), x),
                        (Ok(_), x) => match expected(
                            c,
                            x,
                            TypeView::Semicolon,
                            "after case block"@,
                        ) {
                            (Err(e), y) => (Err(e), y),
                            (Ok(_), y) => (Ok(FnStmtView::Case { condition, scopes }), y),
                        },
                    },
                }
            } else {
                arbitrary()
            },
        },
    }
}

/// A statement in the body of a function.
pub open spec fn statement(c: Source, t: Seq<TokenView>) -> Parsed<FnStmtView>
    decreases t.len(), 1int,
{
    match cur(c, t).ty {
        TypeView::Illegal(msg) => (Err(error_here(c, t, msg)), t),
        TypeView::Log => match simple_statement(c, t, "after `log`"@) {
            (Err(e), u) => (Err(e), u),
            (Ok(value), u) => (Ok(FnStmtView::Log(value)), u),
        },
        TypeView::Exec => match simple_statement(c, t, "after `exec`"@) {
            (Err(e), u) => (Err(e), u),
            (Ok(value), u) => (Ok(FnStmtView::Exec(value)), u),
        },
        TypeView::Cd => match simple_statement(c, t, "after `cd`"@) {
            (Err(e), u) => (Err(e), u),
            (Ok(value), u) => (Ok(FnStmtView::Cd(value)), u),
        },
        TypeView::Var => match variable_declaration(c, t) {
            (Err(e), u) => (Err(e), u),
            (Ok((var_type, name, value)), u) => (
                Ok(FnStmtView::VarDecl { var_type, name, value }),
                u,
            ),
        },
        TypeView::Env => env_block(c, t),
        TypeView::Case => case_block(c, t),
        TypeView::Semicolon => (Err(error_here(c, t, "unexpected `;` (empty statement)"@)), t),
        _ => (Err(no_statement(c, t, "log, exec, cd, var, env, or case"@)), t),
    }
}

// ── Declarations ─────────────────────────────────────────────────────────────

/// The tokens after a semicolon, where one is ahead.
pub open spec fn skip_semicolon(c: Source, t: Seq<TokenView>) -> Seq<TokenView> {
    if cur(c, t).ty == TypeView::Semicolon {
        rest(t)
    } else {
        t
    }
}

/// The declaration of a variable outside functions.
pub open spec fn var_stmt(c: Source, t: Seq<TokenView>) -> Parsed<StmtView> {
    let tok = cur(c, t);
    match variable_declaration(c, t) {
        (Err(e), u) => (Err(e), u),
        (Ok((var_type, name, value)), u) => (
            Ok(StmtView::Var { var_type, name, value, offset: tok.offset, len: tok.len }),
            u,
        ),
    }
}

/// A function.
pub open spec fn fn_stmt(c: Source, t: Seq<TokenView>) -> Parsed<StmtView> {
    let tok = cur(c, t);
    match declared_name(c, rest(t), "function"@, "expected function name"@) {
        (Err(e), u) => (Err(e), u),
        (Ok(name), u) => match block(c, u, "after function name"@, "to close function body"@) {
            (Err(e), v) => (Err(e), v),
            (Ok(body), v) => (
                Ok(StmtView::Fn { name, body, offset: tok.offset, len: tok.len }),
                v,
            ),
        },
    }
}

/// A function that a run refers to. Where `qualified` is set, its project must
/// be named.
pub open spec fn fn_ref(c: Source, t: Seq<TokenView>, qualified: bool) -> Parsed<FnRefView> {
    if !qualified && !(cur(c, t).ty is Ident) {
        (
            Err(
                error_here(
                    c,
                    t,
                    "expected function name in run block, found "@ + token_name(cur(c, t).ty),
                ),
            ),
            t,
        )
    } else {
        match identifier(
            c,
            t,
            "expected project namespace in run reference"@,
            "expected project namespace in run reference"@,
        ) {
            (Err(e), u) => (Err(e), u),
            (Ok(first), u) => if !qualified && cur(c, u).ty != TypeView::NamespaceSep {
                (Ok(FnRefView { project: Seq::empty(), function: first }), u)
            } else {
                match expected(c, u, TypeView::NamespaceSep, "in run reference"@) {
                    (Err(e), v) => (Err(e), v),
                    (Ok(_), v) => match identifier(
                        c,
                        v,
                        "expected function name after `::` in run reference"@,
                        "expected function name after `::` in run reference"@,
                    ) {
                        (Err(e), w) => (Err(e), w),
                        (Ok(second), w) => (Ok(FnRefView { project: first, function: second }), w),
                    },
                }
            },
        }
    }
}

/// The chains of a run up to the closing brace, where `chain` is what has been
/// read of the current one. `=>` continues a chain and `;` closes it; the last
/// `;` may be missing.
pub open spec fn run_chains(
    c: Source,
    t: Seq<TokenView>,
    chain: Seq<FnRefView>,
    qualified: bool,
) -> Parsed<Seq<Seq<FnRefView>>>
    decreases t.len(),
{
    if cur(c, t).ty == TypeView::RBrace {
        (
            Ok(
                if chain.len() > 0 {
                    seq![chain]
                } else {
                    Seq::empty()
                },
            ),
            t,
        )
    } else if cur(c, t).ty == TypeView::Eof {
        (
            Err(
                error_here(c, t, "unexpected end of file in run declaration (expected '}')"@),
            ),
            t,
        )
    } else {
        match fn_ref(c, t, qualified) {
            (Err(e), u) => (Err(e), u),
            (Ok(r), u) => match cur(c, u).ty {
                TypeView::Arrow => if rest(u).len() < t.len() {
                    run_chains(c, rest(u), chain.push(r), qualified)
                } else {
                    arbitrary()
                },
                TypeView::Semicolon => if rest(u).len() < t.len() {
                    match run_chains(c, rest(u), Seq::empty(), qualified) {
                        (Err(e), v) => (Err(e), v),
                        (Ok(more), v) => (Ok(seq![chain.push(r)] + more), v),
                    }
                } else {
                    arbitrary()
                },
                TypeView::RBrace => (Ok(seq![chain.push(r)]), u),
                other => (
                    Err(
                        error_here(
                            c,
                            u,
                            "expected `;`, `=>`, or `}` after run reference, found "@ + type_title(
                                other,
                            ),
                        ),
                    ),
                    u,
                ),
            },
        }
    }
}

/// A run.
pub open spec fn run_stmt(c: Source, t: Seq<TokenView>, qualified: bool) -> Parsed<StmtView> {
    let tok = cur(c, t);
    match declared_name(c, rest(t), "run block"@, "expected run block name"@) {
        (Err(e), u) => (Err(e), u),
        (Ok(name), u) => match expected(c, u, TypeView::LBrace, "after run block name"@) {
            (Err(e), v) => (Err(e), v),
            (Ok(_), v) => match run_chains(c, v, Seq::empty(), qualified) {
                (Err(e), w) => (Err(e), w),
                (Ok(chains), w) => match expected(
                    c,
                    w,
                    TypeView::RBrace,
                    "to close run block"@,
                ) {
                    (Err(e), x) => (Err(e), x),
                    (Ok(_), x) => (
                        Ok(
                            StmtView::Run {
                                name,
                                chains,
                                offset: tok.offset,
                                len: distance(tok.offset, token_end(cur(c, w))),
                            },
                        ),
                        skip_semicolon(c, x),
                    ),
                },
            },
        },
    }
}

/// The application of a function to a project.
pub open spec fn use_stmt(c: Source, t: Seq<TokenView>) -> Parsed<StmtView> {
    let tok = cur(c, t);
    match declared_name(c, rest(t), "function"@, "expected function name"@) {
        (Err(e), u) => (Err(e), u),
        (Ok(function), u) => if cur(c, u).ty == TypeView::Ident("as"@) {
            match declared_name(c, rest(u), "alias"@, "expected alias name"@) {
                (Err(e), v) => (Err(e), v),
                (Ok(alias), v) => match expected(c, v, TypeView::Semicolon, "after `use`"@) {
                    (Err(e), w) => (Err(e), w),
                    (Ok(_), w) => (
                        Ok(
                            StmtView::Use {
                                function,
                                alias: Some(alias),
                                offset: tok.offset,
                                len: tok.len,
                                source_name: c.name,
                            },
                        ),
                        w,
                    ),
                },
            }
        } else {
            match expected(c, u, TypeView::Semicolon, "after `use`"@) {
                (Err(e), w) => (Err(e), w),
                (Ok(_), w) => (
                    Ok(
                        StmtView::Use {
                            function,
                            alias: None,
                            offset: tok.offset,
                            len: tok.len,
                            source_name: c.name,
                        },
                    ),
                    w,
                ),
            }
        },
    }
}

/// The name of a field of a project.
pub open spec fn field_key(c: Source, t: Seq<TokenView>) -> Parsed<ProjectField> {
    match cur(c, t).ty {
        TypeView::Ident(s) => match ProjectField::named(s) {
            Some(key) => (Ok(key), rest(t)),
            None => (Err(error_here(c, rest(t), "unknown project field: "@ + s)), rest(t)),
        },
        _ => (Err(error_here(c, t, "expected project field name"@)), t),
    }
}

/// A field of a project: name, `=` and value; a semicolon may follow.
#[verifier::opaque]
pub open spec fn field_stmt(c: Source, t: Seq<TokenView>) -> Parsed<StmtView> {
    let tok = cur(c, t);
    match field_key(c, t) {
        (Err(e), u) => (Err(e), u),
        (Ok(key), u) => match expected(c, u, TypeView::Assign, "in project field"@) {
            (Err(e), v) => (Err(e), v),
            (Ok(_), v) => match expression(c, v) {
                (Err(e), w) => (Err(e), w),
                (Ok(value), w) => {
                    let x = skip_semicolon(c, w);
                    (
                        Ok(
                            StmtView::Field {
                                key,
                                value,
                                offset: tok.offset,
                                len: distance(tok.offset, cur(c, x).offset),
                            },
                        ),
                        x,
                    )
                },
            },
        },
    }
}

/// The fields of a project in brackets, up to the closing bracket.
pub open spec fn bracket_fields(c: Source, t: Seq<TokenView>) -> Parsed<Seq<StmtView>>
    decreases t.len(),
{
    if cur(c, t).ty == TypeView::RBracket {
        (Ok(Seq::empty()), t)
    } else {
        match field_stmt(c, t) {
            (Err(e), u) => (Err(e), u),
            (Ok(field), u) => if u.len() < t.len() {
                match bracket_fields(c, u) {
                    (Err(e), v) => (Err(e), v),
                    (Ok(more), v) => (Ok(seq![field] + more), v),
                }
            } else {
                arbitrary()
            },
        }
    }
}

/// Whether a field of a project is ahead.
pub open spec fn starts_field(c: Source, t: Seq<TokenView>) -> bool {
    cur(c, t).ty matches TypeView::Ident(s) && ProjectField::named(s) is Some
}

/// A declaration in the body of a project.
#[verifier::opaque]
pub open spec fn project_item(c: Source, t: Seq<TokenView>) -> Parsed<StmtView> {
    match cur(c, t).ty {
        TypeView::Illegal(msg) => (Err(error_here(c, t, msg)), t),
        TypeView::Var => var_stmt(c, t),
        TypeView::Fn => fn_stmt(c, t),
        TypeView::Run => run_stmt(c, t, false),
        TypeView::Use => use_stmt(c, t),
        _ => (Err(no_statement(c, t, "var, fn, or run"@)), t),
    }
}

/// The fields and declarations of a project, up to the closing brace.
pub open spec fn project_items(c: Source, t: Seq<TokenView>) -> Parsed<
    (Seq<StmtView>, Seq<StmtView>),
>
    decreases t.len(),
{
    if cur(c, t).ty == TypeView::RBrace {
        (Ok((Seq::empty(), Seq::empty())), t)
    } else if starts_field(c, t) {
        match field_stmt(c, t) {
            (Err(e), u) => (Err(e), u),
            (Ok(field), u) => if u.len() < t.len() {
                match project_items(c, u) {
                    (Err(e), v) => (Err(e), v),
                    (Ok((fields, body)), v) => (Ok((seq![field] + fields, body)), v),
                }
            } else {
                arbitrary()
            },
        }
    } else {
        match project_item(c, t) {
            (Err(e), u) => (Err(e), u),
            (Ok(item), u) => if u.len() < t.len() {
                match project_items(c, u) {
                    (Err(e), v) => (Err(e), v),
                    (Ok((fields, body)), v) => (Ok((fields, seq![item] + body)), v),
                }
            } else {
                arbitrary()
            },
        }
    }
}

/// The fields in brackets before the body of a project, where there are any.
pub open spec fn field_list(c: Source, t: Seq<TokenView>) -> Parsed<Seq<StmtView>> {
    if cur(c, t).ty == TypeView::LBracket {
        match bracket_fields(c, rest(t)) {
            (Err(e), u) => (Err(e), u),
            (Ok(fields), u) => match expected(
                c,
                u,
                TypeView::RBracket,
                "to close project field list"@,
            ) {
                (Err(e), v) => (Err(e), v),
                (Ok(_), v) => (Ok(fields), v),
            },
        }
    } else {
        (Ok(Seq::empty()), t)
    }
}

/// A project.
pub open spec fn project_stmt(c: Source, t: Seq<TokenView>) -> Parsed<StmtView> {
    match declared_name(c, rest(t), "project"@, "expected project name"@) {
        (Err(e), u) => (Err(e), u),
        (Ok(name), u) => match field_list(c, u) {
            (Err(e), v) => (Err(e), v),
            (Ok(listed), v) => match expected(c, v, TypeView::LBrace, "after project name"@) {
                (Err(e), w) => (Err(e), w),
                (Ok(_), w) => match project_items(c, w) {
                    (Err(e), x) => (Err(e), x),
                    (Ok((fields, body)), x) => match expected(
                        c,
                        x,
                        TypeView::RBrace,
                        "to close project body"@,
                    ) {
                        (Err(e), y) => (Err(e), y),
                        (Ok(_), y) => (
                            Ok(StmtView::Project { name, fields: listed + fields, body }),
                            skip_semicolon(c, y),
                        ),
                    },
                },
            },
        },
    }
}

/// The shell: `shell`, `=`, a text in backticks, and `;`.
pub open spec fn shell_stmt(c: Source, t: Seq<TokenView>) -> Parsed<StmtView> {
    match expected(c, rest(t), TypeView::Assign, "after `shell`"@) {
        (Err(e), u) => (Err(e), u),
        (Ok(_), u) => match cur(c, u).ty {
            TypeView::Backtick(value) => match expected(
                c,
                rest(u),
                TypeView::Semicolon,
                "after shell declaration"@,
            ) {
                (Err(e), v) => (Err(e), v),
                (Ok(_), v) => (Ok(StmtView::Shell { value }), v),
            },
            other => (
                Err(error_here(c, u, "expected backtick string, found "@ + token_name(other))),
                u,
            ),
        },
    }
}

/// The sanctuary: `sanctuary`, `=`, a value, and `;`.
pub open spec fn sanctuary_stmt(c: Source, t: Seq<TokenView>) -> Parsed<StmtView> {
    match expected(c, rest(t), TypeView::Assign, "after `sanctuary`"@) {
        (Err(e), u) => (Err(e), u),
        (Ok(_), u) => match expression(c, u) {
            (Err(e), v) => (Err(e), v),
            (Ok(value), v) => match expected(
                c,
                v,
                TypeView::Semicolon,
                "after sanctuary declaration"@,
            ) {
                (Err(e), w) => (Err(e), w),
                (Ok(_), w) => (Ok(StmtView::Sanctuary { value }), w),
            },
        },
    }
}

/// The names of functions in a `seq` or `par` block, each with its semicolon, up
/// to the closing brace; `eof` is the error at the end of the text.
pub open spec fn fn_names(c: Source, t: Seq<TokenView>, eof: Seq<char>) -> Parsed<Seq<Seq<char>>>
    decreases t.len(),
{
    match cur(c, t).ty {
        TypeView::RBrace => (Ok(Seq::empty()), t),
        TypeView::Eof => (Err(error_here(c, t, eof)), t),
        TypeView::Ident(name) => match expected(
            c,
            rest(t),
            TypeView::Semicolon,
            "after function name"@,
        ) {
            (Err(e), u) => (Err(e), u),
            (Ok(_), u) => if u.len() < t.len() {
                match fn_names(c, u, eof) {
                    (Err(e), v) => (Err(e), v),
                    (Ok(more), v) => (Ok(seq![name] + more), v),
                }
            } else {
                arbitrary()
            },
        },
        other => (
            Err(error_here(c, t, "expected function name in seq/par, found "@ + token_name(other))),
            t,
        ),
    }
}

/// A name and the names of functions in braces.
pub open spec fn name_block(
    c: Source,
    t: Seq<TokenView>,
    kind: Seq<char>,
    fallback: Seq<char>,
    open: Seq<char>,
    eof: Seq<char>,
    close: Seq<char>,
) -> Parsed<(Seq<char>, Seq<Seq<char>>)> {
    match declared_name(c, rest(t), kind, fallback) {
        (Err(e), u) => (Err(e), u),
        (Ok(name), u) => match expected(c, u, TypeView::LBrace, open) {
            (Err(e), v) => (Err(e), v),
            (Ok(_), v) => match fn_names(c, v, eof) {
                (Err(e), w) => (Err(e), w),
                (Ok(fns), w) => match expected(c, w, TypeView::RBrace, close) {
                    (Err(e), x) => (Err(e), x),
                    (Ok(_), x) => (Ok((name, fns)), x),
                },
            },
        },
    }
}

/// A `seq` block.
pub open spec fn seq_stmt(c: Source, t: Seq<TokenView>) -> Parsed<StmtView> {
    match name_block(
        c,
        t,
        "sequence"@,
        "expected sequence name"@,
        "after sequence name"@,
        "unexpected end of file in seq declaration (expected '}')"@,
        "to close sequence body"@,
    ) {
        (Err(e), u) => (Err(e), u),
        (Ok((name, fns)), u) => (Ok(StmtView::SeqBlock { name, fns }), u),
    }
}

/// A `par` block.
pub open spec fn par_stmt(c: Source, t: Seq<TokenView>) -> Parsed<StmtView> {
    match name_block(
        c,
        t,
        "parallel block"@,
        "expected parallel block name"@,
        "after parallel block name"@,
        "unexpected end of file in par declaration (expected '}')"@,
        "to close parallel block body"@,
    ) {
        (Err(e), u) => (Err(e), u),
        (Ok((name, fns)), u) => (Ok(StmtView::ParBlock { name, fns }), u),
    }
}

// ── Source files ─────────────────────────────────────────────────────────────

/// A declaration at the top of a file.
#[verifier::opaque]
pub open spec fn declaration(c: Source, t: Seq<TokenView>) -> Parsed<StmtView> {
    match cur(c, t).ty {
        TypeView::Illegal(msg) => (Err(error_here(c, t, msg)), t),
        TypeView::Var => var_stmt(c, t),
        TypeView::Pr => project_stmt(c, t),
        TypeView::Fn => fn_stmt(c, t),
        TypeView::Run => run_stmt(c, t, true),
        TypeView::SeqKw => seq_stmt(c, t),
        TypeView::ParKw => par_stmt(c, t),
        TypeView::Shell => shell_stmt(c, t),
        TypeView::Sanctuary => sanctuary_stmt(c, t),
        _ => (
            Err(
                no_statement(
                    c,
                    t,
                    "var, pr, fn, or run, or else expected sanctuary, import, shell, seq, or par"@,
                ),
            ),
            t,
        ),
    }
}

/// The path of an import: a path, or an expression.
pub open spec fn import_path(c: Source, t: Seq<TokenView>) -> Parsed<ExprView> {
    let tok = cur(c, t);
    match tok.ty {
        TypeView::PathLit(path) => (
            Ok(
                ExprView::BacktickLit {
                    parts: literal(path),
                    offset: tok.offset,
                    len: tok.len,
                    source_name: c.name,
                },
            ),
            rest(t),
        ),
        _ => expression(c, t),
    }
}

/// An item of a file, or nothing at the end.
#[verifier::opaque]
pub open spec fn item(c: Source, t: Seq<TokenView>) -> Parsed<Option<TopLevelView>> {
    match cur(c, t).ty {
        TypeView::Eof => (Ok(None), t),
        TypeView::Import => match import_path(c, rest(t)) {
            (Err(e), u) => (Err(e), u),
            (Ok(path), u) => match expected(c, u, TypeView::Semicolon, "after import path"@) {
                (Err(e), v) => (Err(e), v),
                (Ok(_), v) => (Ok(Some(TopLevelView::Import(path))), v),
            },
        },
        _ => match declaration(c, t) {
            (Err(e), u) => (Err(e), u),
            (Ok(s), u) => (Ok(Some(TopLevelView::Stmt(s))), u),
        },
    }
}

/// Whether a token starts a declaration to which the parser goes on after an
/// error.
pub open spec fn is_boundary(ty: TypeView) -> bool {
    ty == TypeView::Var || ty == TypeView::Pr || ty == TypeView::Fn || ty == TypeView::Run
}

/// The tokens from the next declaration on.
pub open spec fn from_boundary(c: Source, t: Seq<TokenView>) -> Seq<TokenView>
    decreases t.len(),
{
    if t.len() == 0 || cur(c, t).ty == TypeView::Eof || is_boundary(cur(c, t).ty) {
        t
    } else {
        from_boundary(c, rest(t))
    }
}

/// The items of a file, and the errors in it. After an error the parser goes on
/// with the next declaration.
pub open spec fn file(c: Source, t: Seq<TokenView>) -> (Seq<TopLevelView>, Seq<ParseErrorView>)
    decreases t.len(),
{
    if cur(c, t).ty == TypeView::Eof {
        (Seq::empty(), Seq::empty())
    } else {
        match item(c, t) {
            (Ok(None), _) => (Seq::empty(), Seq::empty()),
            (Ok(Some(x)), u) => if u.len() < t.len() {
                let (items, errors) = file(c, u);
                (seq![x] + items, errors)
            } else {
                arbitrary()
            },
            (Err(e), u) => {
                let v = from_boundary(c, u);
                if v.len() < t.len() {
                    let (items, errors) = file(c, v);
                    (items, seq![e] + errors)
                } else {
                    arbitrary()
                }
            },
        }
    }
}

} // verus!
