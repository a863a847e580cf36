//! What is spelled out in tokens is read back: expressions, statements and
//! declarations of the language, whatever they hold and however they are nested.
use vstd::prelude::*;
use crate::dsl::ast::{FnRefView, StmtView, TopLevelView};
use crate::dsl::error::ParseErrorView;
use crate::dsl::fnstmt::{CaseArmView, FnStmtView};
use crate::dsl::grammar::{
    block, bracket_fields, case_arm, case_arms, case_block, case_pattern, cur, declaration,
    env_block, env_pair, env_pairs, expression, field_list, field_stmt, file, fn_names, fn_ref,
    from_boundary, is_boundary, item, pieces, project_item, project_items, project_stmt, rest,
    run_chains, run_stmt, statement, statements, Source,
};
use crate::dsl::syntax::{CasePatternView, EnvPairView, ExprView, VarType};
use crate::dsl::token::{TokenView, TypeView};

verus! {

/// Whether a token stands at a place.
pub open spec fn at(t: Seq<TokenView>, i: int, ty: TypeView) -> bool {
    0 <= i < t.len() && t[i].ty == ty
}

// ── Runs ─────────────────────────────────────────────────────────────────────

/// The words of a call: `project::function`, or the function alone where its
/// project need not be named and is not.
pub open spec fn call_words(call: FnRefView, qualified: bool) -> Seq<TypeView> {
    if !qualified && call.project.len() == 0 {
        seq![TypeView::Ident(call.function)]
    } else {
        seq![TypeView::Ident(call.project), TypeView::NamespaceSep, TypeView::Ident(call.function)]
    }
}

/// Whether calls stand in tokens, with `=>` between each two.
pub open spec fn said_chain(t: Seq<TokenView>, chain: Seq<FnRefView>, qualified: bool) -> bool
    decreases chain.len(),
{
    if chain.len() == 0 {
        true
    } else {
        let w = call_words(chain[0], qualified);
        &&& forall|i: int| 0 <= i < w.len() ==> at(t, i, #[trigger] w[i])
        &&& chain.len() > 1 ==> at(t, w.len() as int, TypeView::Arrow) && said_chain(
            t.skip(w.len() as int + 1),
            chain.skip(1),
            qualified,
        )
    }
}

/// How many tokens a chain takes.
pub open spec fn chain_len(chain: Seq<FnRefView>, qualified: bool) -> nat
    decreases chain.len(),
{
    if chain.len() == 0 {
        0
    } else if chain.len() == 1 {
        call_words(chain[0], qualified).len()
    } else {
        call_words(chain[0], qualified).len() + 1 + chain_len(chain.skip(1), qualified)
    }
}

/// Whether chains stand in tokens, a `;` after each; after the last it may be
/// missing.
pub open spec fn said_chains(
    t: Seq<TokenView>,
    chains: Seq<Seq<FnRefView>>,
    qualified: bool,
    closed: bool,
) -> bool
    decreases chains.len(),
{
    if chains.len() == 0 {
        at(t, 0, TypeView::RBrace)
    } else {
        let n = chain_len(chains[0], qualified) as int;
        &&& chains[0].len() > 0
        &&& said_chain(t, chains[0], qualified)
        &&& if chains.len() == 1 && !closed {
            at(t, n, TypeView::RBrace)
        } else {
            at(t, n, TypeView::Semicolon) && said_chains(
                t.skip(n + 1),
                chains.skip(1),
                qualified,
                closed,
            )
        }
    }
}

/// How many tokens chains take.
pub open spec fn chains_len(chains: Seq<Seq<FnRefView>>, qualified: bool, closed: bool) -> nat
    decreases chains.len(),
{
    if chains.len() == 0 {
        0
    } else if chains.len() == 1 && !closed {
        chain_len(chains[0], qualified)
    } else {
        chain_len(chains[0], qualified) + 1 + chains_len(chains.skip(1), qualified, closed)
    }
}

type Calls = Seq<Seq<FnRefView>>;

proof fn lemma_call(c: Source, t: Seq<TokenView>, call: FnRefView, qualified: bool)
    requires
        ({
            let w = call_words(call, qualified);
            &&& forall|i: int| 0 <= i < w.len() ==> at(t, i, #[trigger] w[i])
            &&& w.len() < t.len() && t[w.len() as int].ty != TypeView::NamespaceSep
        }),
    ensures
        fn_ref(c, t, qualified) == (
            Ok::<FnRefView, ParseErrorView>(call),
            t.skip(call_words(call, qualified).len() as int),
        ),
{
    let w = call_words(call, qualified);
    assert(at(t, 0, w[0]));
    if w.len() == 1 {
        assert(call.project =~= Seq::<char>::empty());
    } else {
        assert(at(t, 1, w[1]));
        assert(at(t, 2, w[2]));
        assert(t.skip(1).skip(1) =~= t.skip(2));
        assert(t.skip(2).skip(1) =~= t.skip(3));
    }
}

/// A chain that is read to its end, with what came before it in the same chain.
proof fn lemma_chain(
    c: Source,
    t: Seq<TokenView>,
    done: Seq<FnRefView>,
    chain: Seq<FnRefView>,
    qualified: bool,
)
    requires
        chain.len() > 0,
        said_chain(t, chain, qualified),
        at(t, chain_len(chain, qualified) as int, TypeView::Semicolon) || at(
            t,
            chain_len(chain, qualified) as int,
            TypeView::RBrace,
        ),
    ensures
        ({
            let n = chain_len(chain, qualified) as int;
            let all = done + chain;
            if t[n].ty == TypeView::RBrace {
                run_chains(c, t, done, qualified) == (
                    Ok::<Calls, ParseErrorView>(seq![all]),
                    t.skip(n),
                )
            } else {
                run_chains(c, t, done, qualified) == match run_chains(
                    c,
                    t.skip(n + 1),
                    Seq::empty(),
                    qualified,
                ) {
                    (Err(e), v) => (Err(e), v),
                    (Ok(more), v) => (Ok(seq![all] + more), v),
                }
            }
        }),
    decreases chain.len(),
{
    let w = call_words(chain[0], qualified);
    let k = w.len() as int;
    let n = chain_len(chain, qualified) as int;
    assert(at(t, 0, w[0]));
    lemma_call(c, t, chain[0], qualified);
    let u = t.skip(k);
    assert(u[0] == t[k]);
    assert(u.skip(1) =~= t.skip(k + 1));
    if chain.len() == 1 {
        assert(done.push(chain[0]) =~= done + chain);
    } else {
        let others = chain.skip(1);
        let v = t.skip(k + 1);
        let m = chain_len(others, qualified) as int;
        assert(v[m] == t[n]);
        lemma_chain(c, v, done.push(chain[0]), others, qualified);
        assert(done.push(chain[0]) + others =~= done + chain);
        assert(v.skip(m) =~= t.skip(n));
        assert(v.skip(m + 1) =~= t.skip(n + 1));
    }
}

/// Calls that are joined by `=>` form one chain, in order, and `;` separates
/// chains: chains that are spelled out are read back as they are.
pub proof fn law_chains_are_read_back(
    c: Source,
    t: Seq<TokenView>,
    chains: Seq<Seq<FnRefView>>,
    qualified: bool,
    closed: bool,
)
    requires
        said_chains(t, chains, qualified, closed),
    ensures
        at(t, chains_len(chains, qualified, closed) as int, TypeView::RBrace),
        run_chains(c, t, Seq::empty(), qualified) == (
            Ok::<Calls, ParseErrorView>(chains),
            t.skip(chains_len(chains, qualified, closed) as int),
        ),
    decreases chains.len(),
{
    if chains.len() == 0 {
        assert(t.skip(0) =~= t);
        assert(chains =~= Seq::<Seq<FnRefView>>::empty());
    } else {
        let n = chain_len(chains[0], qualified) as int;
        lemma_chain(c, t, Seq::empty(), chains[0], qualified);
        assert(Seq::<FnRefView>::empty() + chains[0] =~= chains[0]);
        if chains.len() == 1 && !closed {
            assert(seq![chains[0]] =~= chains);
        } else {
            let others = chains.skip(1);
            let u = t.skip(n + 1);
            law_chains_are_read_back(c, u, others, qualified, closed);
            let m = chains_len(others, qualified, closed) as int;
            assert(u.skip(m) =~= t.skip(n + 1 + m));
            assert(u[m] == t[n + 1 + m]);
            assert(seq![chains[0]] + others =~= chains);
        }
    }
}

// ── Expressions ──────────────────────────────────────────────────────────────

/// How many tokens a reference takes.
pub open spec fn ref_len(namespace: Seq<char>) -> nat {
    if namespace.len() == 0 {
        2
    } else {
        4
    }
}

/// Whether a reference to a variable stands in tokens: `$name`, or
/// `$namespace::name`.
pub open spec fn said_ref(
    t: Seq<TokenView>,
    name: Seq<char>,
    namespace: Seq<char>,
    offset: usize,
    len: usize,
) -> bool {
    let n = ref_len(namespace) as int;
    &&& n < t.len() && t[n].ty != TypeView::NamespaceSep
    &&& at(t, 0, TypeView::Dollar) && t[0].offset == offset
    &&& at(t, n - 1, TypeView::Ident(name))
    &&& namespace.len() > 0 ==> at(t, 1, TypeView::Ident(namespace)) && at(
        t,
        2,
        TypeView::NamespaceSep,
    )
    &&& t[n - 1].offset + t[n - 1].len == offset + len <= usize::MAX
}

/// How many tokens an expression takes.
pub open spec fn expr_len(v: ExprView) -> nat {
    match v {
        ExprView::BacktickLit { .. } => 1,
        ExprView::VarRef { namespace, .. } => ref_len(namespace),
    }
}

/// Whether an expression stands in tokens: a text in backticks, by its pieces, or
/// a reference; each with its own place and source.
pub open spec fn said_expr(c: Source, t: Seq<TokenView>, v: ExprView) -> bool {
    match v {
        ExprView::BacktickLit { parts, offset, len, source_name } => {
            &&& t.len() > 0 && t[0].offset == offset && t[0].len == len && source_name == c.name
            &&& t[0].ty matches TypeView::Backtick(text) && pieces(text, 0, Seq::empty(), offset)
                == Ok::<Seq<crate::dsl::syntax::PartView>, ParseErrorView>(parts)
        },
        ExprView::VarRef { name, namespace, offset, len, source_name } => said_ref(
            t,
            name,
            namespace,
            offset,
            len,
        ) && source_name == c.name,
    }
}

proof fn lemma_ref(
    c: Source,
    t: Seq<TokenView>,
    name: Seq<char>,
    namespace: Seq<char>,
    offset: usize,
    len: usize,
    msg: Seq<char>,
)
    requires
        said_ref(t, name, namespace, offset, len),
    ensures
        ({
            let n = ref_len(namespace) as int;
            crate::dsl::grammar::reference(c, t.skip(1), msg) == (
                Ok::<(Seq<char>, Seq<char>, usize), ParseErrorView>(
                    (namespace, name, crate::dsl::grammar::token_end(t[n - 1])),
                ),
                t.skip(n),
            )
        }),
        crate::dsl::grammar::distance(
            offset,
            crate::dsl::grammar::token_end(t[ref_len(namespace) - 1]),
        ) == len,
{
    let u = t.skip(1);
    assert(u[0] == t[1]);
    assert(u.skip(1) =~= t.skip(2));
    assert(t.skip(2)[0] == t[2]);
    if namespace.len() == 0 {
        assert(namespace =~= Seq::<char>::empty());
    } else {
        assert(t.skip(2).skip(1) =~= t.skip(3));
        assert(t.skip(3)[0] == t[3]);
        assert(t.skip(3).skip(1) =~= t.skip(4));
        assert(t.skip(4)[0] == t[4]);
    }
}

/// An expression that is spelled out is read back.
pub proof fn law_an_expression_is_read_back(c: Source, t: Seq<TokenView>, v: ExprView)
    requires
        said_expr(c, t, v),
    ensures
        expression(c, t) == (Ok::<ExprView, ParseErrorView>(v), t.skip(expr_len(v) as int)),
        expr_len(v) <= t.len(),
{
    match v {
        ExprView::BacktickLit { .. } => {},
        ExprView::VarRef { name, namespace, offset, len, .. } => {
            lemma_ref(c, t, name, namespace, offset, len, "expected identifier after `$`"@);
        },
    }
}

// ── Statements ───────────────────────────────────────────────────────────────

/// Whether the variables of an `env` block stand in tokens, each as `KEY = value`.
pub open spec fn said_pairs(c: Source, t: Seq<TokenView>, pairs: Seq<EnvPairView>) -> bool
    decreases pairs.len(),
{
    if pairs.len() == 0 {
        true
    } else {
        let n = expr_len(pairs[0].value) as int;
        &&& at(t, 0, TypeView::Ident(pairs[0].key))
        &&& at(t, 1, TypeView::Assign)
        &&& said_expr(c, t.skip(2), pairs[0].value)
        &&& said_pairs(c, t.skip(2 + n), pairs.skip(1))
    }
}

/// How many tokens they take.
pub open spec fn pairs_len(pairs: Seq<EnvPairView>) -> nat
    decreases pairs.len(),
{
    if pairs.len() == 0 {
        0
    } else {
        2 + expr_len(pairs[0].value) + pairs_len(pairs.skip(1))
    }
}

/// How many tokens a pattern takes.
pub open spec fn pattern_len(p: CasePatternView) -> nat {
    match p {
        CasePatternView::VarRef { namespace, .. } => ref_len(namespace),
        _ => 1,
    }
}

/// Whether a pattern stands in tokens: a text, a reference, or `_`.
pub open spec fn said_pattern(c: Source, t: Seq<TokenView>, p: CasePatternView) -> bool {
    match p {
        CasePatternView::Default => at(t, 0, TypeView::Ident("_"@)),
        CasePatternView::Literal { parts, offset, len, source_name } => said_expr(
            c,
            t,
            ExprView::BacktickLit { parts, offset, len, source_name },
        ),
        CasePatternView::VarRef { name, namespace, offset, len, source_name } => said_ref(
            t,
            name,
            namespace,
            offset,
            len,
        ) && source_name == c.name,
    }
}

/// The word for a type of variables.
pub open spec fn type_word(ty: VarType) -> TypeView {
    match ty {
        VarType::String => TypeView::StringKw,
        VarType::Shell => TypeView::Shell,
    }
}

/// Whether the declaration of a variable stands in tokens.
pub open spec fn said_var(
    c: Source,
    t: Seq<TokenView>,
    ty: VarType,
    name: Seq<char>,
    value: ExprView,
) -> bool {
    &&& at(t, 0, TypeView::Var)
    &&& at(t, 1, type_word(ty))
    &&& at(t, 2, TypeView::Ident(name))
    &&& at(t, 3, TypeView::Assign)
    &&& said_expr(c, t.skip(4), value)
    &&& at(t, 4 + expr_len(value) as int, TypeView::Semicolon)
}

/// How many tokens a statement takes.
pub open spec fn stmt_len(s: FnStmtView) -> nat
    decreases s,
{
    match s {
        FnStmtView::Log(v) => 2 + expr_len(v),
        FnStmtView::Exec(v) => 2 + expr_len(v),
        FnStmtView::Cd(v) => 2 + expr_len(v),
        FnStmtView::VarDecl { value, .. } => 5 + expr_len(value),
        FnStmtView::EnvBlock { pairs, body } => 6 + pairs_len(pairs) + body_len(body),
        FnStmtView::Case { condition, scopes } => 4 + expr_len(condition) + arms_len(scopes),
    }
}

pub open spec fn body_len(body: Seq<FnStmtView>) -> nat
    decreases body,
{
    if body.len() == 0 {
        0
    } else {
        stmt_len(body[0]) + body_len(body.drop_first())
    }
}

pub open spec fn arm_len(arm: CaseArmView) -> nat
    decreases arm,
{
    pattern_len(arm.pattern) + 3 + body_len(arm.body)
}

pub open spec fn arms_len(arms: Seq<CaseArmView>) -> nat
    decreases arms,
{
    if arms.len() == 0 {
        0
    } else {
        arm_len(arms[0]) + arms_len(arms.drop_first())
    }
}

/// Whether a word, an expression and a `;` stand in tokens.
pub open spec fn said_simple(c: Source, t: Seq<TokenView>, word: TypeView, v: ExprView) -> bool {
    &&& at(t, 0, word)
    &&& said_expr(c, t.skip(1), v)
    &&& at(t, 1 + expr_len(v) as int, TypeView::Semicolon)
}

/// Whether a statement stands in tokens.
pub open spec fn said_stmt(c: Source, t: Seq<TokenView>, s: FnStmtView) -> bool
    decreases s,
{
    match s {
        FnStmtView::Log(v) => said_simple(c, t, TypeView::Log, v),
        FnStmtView::Exec(v) => said_simple(c, t, TypeView::Exec, v),
        FnStmtView::Cd(v) => said_simple(c, t, TypeView::Cd, v),
        FnStmtView::VarDecl { var_type, name, value } => said_var(c, t, var_type, name, value),
        FnStmtView::EnvBlock { pairs, body } => {
            let n = pairs_len(pairs) as int;
            let m = body_len(body) as int;
            &&& at(t, 0, TypeView::Env)
            &&& at(t, 1, TypeView::LBracket)
            &&& said_pairs(c, t.skip(2), pairs)
            &&& at(t, 2 + n, TypeView::RBracket)
            &&& at(t, 3 + n, TypeView::LBrace)
            &&& said_body(c, t.skip(4 + n), body)
            &&& at(t, 4 + n + m, TypeView::RBrace)
            &&& at(t, 5 + n + m, TypeView::Semicolon)
        },
        FnStmtView::Case { condition, scopes } => {
            let n = expr_len(condition) as int;
            let m = arms_len(scopes) as int;
            &&& at(t, 0, TypeView::Case)
            &&& said_expr(c, t.skip(1), condition)
            &&& at(t, 1 + n, TypeView::LBrace)
            &&& said_arms(c, t.skip(2 + n), scopes)
            &&& at(t, 2 + n + m, TypeView::RBrace)
            &&& at(t, 3 + n + m, TypeView::Semicolon)
        },
    }
}

/// Whether statements stand in tokens, one after another.
pub open spec fn said_body(c: Source, t: Seq<TokenView>, body: Seq<FnStmtView>) -> bool
    decreases body,
{
    body.len() > 0 ==> said_stmt(c, t, body[0]) && said_body(
        c,
        t.skip(stmt_len(body[0]) as int),
        body.drop_first(),
    )
}

/// Whether an arm stands in tokens: `pattern { body };`.
pub open spec fn said_arm(c: Source, t: Seq<TokenView>, arm: CaseArmView) -> bool
    decreases arm,
{
    let n = pattern_len(arm.pattern) as int;
    let m = body_len(arm.body) as int;
    &&& said_pattern(c, t, arm.pattern)
    &&& at(t, n, TypeView::LBrace)
    &&& said_body(c, t.skip(n + 1), arm.body)
    &&& at(t, n + 1 + m, TypeView::RBrace)
    &&& at(t, n + 2 + m, TypeView::Semicolon)
}

/// Whether arms stand in tokens, one after another.
pub open spec fn said_arms(c: Source, t: Seq<TokenView>, arms: Seq<CaseArmView>) -> bool
    decreases arms,
{
    arms.len() > 0 ==> said_arm(c, t, arms[0]) && said_arms(
        c,
        t.skip(arm_len(arms[0]) as int),
        arms.drop_first(),
    )
}

proof fn lemma_pairs(c: Source, t: Seq<TokenView>, pairs: Seq<EnvPairView>)
    requires
        said_pairs(c, t, pairs),
        at(t, pairs_len(pairs) as int, TypeView::RBracket),
    ensures
        env_pairs(c, t) == (
            Ok::<Seq<EnvPairView>, ParseErrorView>(pairs),
            t.skip(pairs_len(pairs) as int),
        ),
    decreases pairs.len(),
{
    if pairs.len() == 0 {
        assert(t.skip(0) =~= t);
        assert(pairs =~= Seq::<EnvPairView>::empty());
    } else {
        let others = pairs.skip(1);
        let n = expr_len(pairs[0].value) as int;
        let m = pairs_len(others) as int;
        let u = t.skip(2 + n);
        law_an_expression_is_read_back(c, t.skip(2), pairs[0].value);
        assert(t.skip(1)[0] == t[1]);
        assert(t.skip(1).skip(1) =~= t.skip(2));
        assert(t.skip(2).skip(n) =~= u);
        assert(env_pair(c, t) == (Ok::<EnvPairView, ParseErrorView>(pairs[0]), u));
        assert(u[m] == t[2 + n + m]);
        lemma_pairs(c, u, others);
        assert(u.skip(m) =~= t.skip(2 + n + m));
        assert(seq![pairs[0]] + others =~= pairs);
    }
}

proof fn lemma_simple(c: Source, t: Seq<TokenView>, word: TypeView, v: ExprView, context: Seq<char>)
    requires
        said_simple(c, t, word, v),
    ensures
        crate::dsl::grammar::simple_statement(c, t, context) == (
            Ok::<ExprView, ParseErrorView>(v),
            t.skip(2 + expr_len(v) as int),
        ),
{
    let n = expr_len(v) as int;
    law_an_expression_is_read_back(c, t.skip(1), v);
    assert(t.skip(1).skip(n) =~= t.skip(1 + n));
    assert(t.skip(1 + n)[0] == t[1 + n]);
    assert(t.skip(1 + n).skip(1) =~= t.skip(2 + n));
}

proof fn lemma_var(
    c: Source,
    t: Seq<TokenView>,
    ty: VarType,
    name: Seq<char>,
    value: ExprView,
)
    requires
        said_var(c, t, ty, name, value),
    ensures
        crate::dsl::grammar::variable_declaration(c, t) == (
            Ok::<(VarType, Seq<char>, ExprView), ParseErrorView>((ty, name, value)),
            t.skip(5 + expr_len(value) as int),
        ),
{
    let n = expr_len(value) as int;
    assert(t.skip(1)[0] == t[1]);
    assert(t.skip(1).skip(1) =~= t.skip(2));
    assert(t.skip(2)[0] == t[2]);
    assert(t.skip(2).skip(1) =~= t.skip(3));
    assert(t.skip(3)[0] == t[3]);
    assert(t.skip(3).skip(1) =~= t.skip(4));
    law_an_expression_is_read_back(c, t.skip(4), value);
    assert(t.skip(4).skip(n) =~= t.skip(4 + n));
    assert(t.skip(4 + n)[0] == t[4 + n]);
    assert(t.skip(4 + n).skip(1) =~= t.skip(5 + n));
}

/// A statement that is spelled out is read back as itself: its expressions, names,
/// variables, patterns and bodies, in order.
pub proof fn law_a_statement_is_read_back(c: Source, t: Seq<TokenView>, s: FnStmtView)
    requires
        said_stmt(c, t, s),
    ensures
        stmt_len(s) <= t.len(),
        statement(c, t) == (Ok::<FnStmtView, ParseErrorView>(s), t.skip(stmt_len(s) as int)),
    decreases s, 0int,
{
    match s {
        FnStmtView::Log(v) => {
            lemma_simple(c, t, TypeView::Log, v, "after `log`"@);
        },
        FnStmtView::Exec(v) => {
            lemma_simple(c, t, TypeView::Exec, v, "after `exec`"@);
        },
        FnStmtView::Cd(v) => {
            lemma_simple(c, t, TypeView::Cd, v, "after `cd`"@);
        },
        FnStmtView::VarDecl { var_type, name, value } => {
            lemma_var(c, t, var_type, name, value);
        },
        FnStmtView::EnvBlock { pairs, body } => {
            lemma_env(c, t, pairs, body);
        },
        FnStmtView::Case { condition, scopes } => {
            lemma_case(c, t, condition, scopes);
        },
    }
}

#[verifier::rlimit(40)]
proof fn lemma_env(
    c: Source,
    t: Seq<TokenView>,
    pairs: Seq<EnvPairView>,
    body: Seq<FnStmtView>,
)
    requires
        said_stmt(c, t, FnStmtView::EnvBlock { pairs, body }),
    ensures
        env_block(c, t) == (
            Ok::<FnStmtView, ParseErrorView>(FnStmtView::EnvBlock { pairs, body }),
            t.skip(6 + pairs_len(pairs) as int + body_len(body) as int),
        ),
    decreases body, 2int,
{
    let n = pairs_len(pairs) as int;
    let m = body_len(body) as int;
    let u = t.skip(2);
    assert(t.skip(1)[0] == t[1]);
    assert(t.skip(1).skip(1) =~= u);
    assert(u[n] == t[2 + n]);
    lemma_pairs(c, u, pairs);
    let v = t.skip(2 + n);
    assert(u.skip(n) =~= v);
    assert(v[0] == t[2 + n]);
    let w = t.skip(3 + n);
    assert(v.skip(1) =~= w);
    assert(w[0] == t[3 + n]);
    assert(w.skip(1) =~= t.skip(4 + n));
    assert(w[1 + m] == t[4 + n + m]);
    lemma_block(c, w, body);
    let x = t.skip(5 + n + m);
    assert(w.skip(m + 2) =~= x);
    assert(block(c, w, "to open env block body"@, "to close env block body"@) == (
        Ok::<Seq<FnStmtView>, ParseErrorView>(body),
        x,
    ));
    assert(x[0] == t[5 + n + m]);
    assert(x.skip(1) =~= t.skip(6 + n + m));
}

/// A body in braces.
proof fn lemma_block(c: Source, t: Seq<TokenView>, body: Seq<FnStmtView>)
    requires
        at(t, 0, TypeView::LBrace),
        said_body(c, t.skip(1), body),
        at(t, 1 + body_len(body) as int, TypeView::RBrace),
    ensures
        forall|open: Seq<char>, close: Seq<char>|
            #[trigger] block(c, t, open, close) == (
                Ok::<Seq<FnStmtView>, ParseErrorView>(body),
                t.skip(body_len(body) as int + 2),
            ),
    decreases body, 1int,
{
    let m = body_len(body) as int;
    let u = t.skip(1);
    assert(u[m] == t[1 + m]);
    lemma_statements(c, u, body);
    assert(u.skip(m) =~= t.skip(1 + m));
    assert(t.skip(1 + m)[0] == t[1 + m]);
    assert(t.skip(1 + m).skip(1) =~= t.skip(m + 2));
}

#[verifier::rlimit(40)]
proof fn lemma_statements(c: Source, t: Seq<TokenView>, body: Seq<FnStmtView>)
    requires
        said_body(c, t, body),
        at(t, body_len(body) as int, TypeView::RBrace),
    ensures
        statements(c, t) == (
            Ok::<Seq<FnStmtView>, ParseErrorView>(body),
            t.skip(body_len(body) as int),
        ),
    decreases body, 0int,
{
    if body.len() == 0 {
        assert(t.skip(0) =~= t);
        assert(body =~= Seq::<FnStmtView>::empty());
    } else {
        let others = body.drop_first();
        let s = body[0];
        let n = stmt_len(s) as int;
        let m = body_len(others) as int;
        let u = t.skip(n);
        assert(decreases_to!(body => body[0]));
        assert(decreases_to!(body => others)) by {
            assert(others =~= body.subrange(1, body.len() as int));
        }
        assert(said_stmt(c, t, s));
        assert(said_body(c, u, others));
        assert(body_len(body) == n + m);
        law_a_statement_is_read_back(c, t, s);
        lemma_stmt_opens(c, t, s);
        assert(u[m] == t[n + m]);
        lemma_statements(c, u, others);
        assert(u.skip(m) =~= t.skip(n + m));
        assert(seq![s] + others =~= body);
        assert(statement(c, t) == (Ok::<FnStmtView, ParseErrorView>(s), u));
        assert(statements(c, u) == (
            Ok::<Seq<FnStmtView>, ParseErrorView>(others),
            t.skip(n + m),
        ));
    }
}

/// A statement is not empty, and does not start by closing a body.
proof fn lemma_stmt_opens(c: Source, t: Seq<TokenView>, s: FnStmtView)
    requires
        said_stmt(c, t, s),
    ensures
        stmt_len(s) > 0,
        t.len() > 0,
        t[0].ty != TypeView::RBrace,
{
}

#[verifier::rlimit(40)]
proof fn lemma_case(
    c: Source,
    t: Seq<TokenView>,
    condition: ExprView,
    scopes: Seq<CaseArmView>,
)
    requires
        said_stmt(c, t, FnStmtView::Case { condition, scopes }),
    ensures
        case_block(c, t) == (
            Ok::<FnStmtView, ParseErrorView>(FnStmtView::Case { condition, scopes }),
            t.skip(4 + expr_len(condition) as int + arms_len(scopes) as int),
        ),
    decreases scopes, 1int,
{
    let n = expr_len(condition) as int;
    let m = arms_len(scopes) as int;
    law_an_expression_is_read_back(c, t.skip(1), condition);
    let u = t.skip(1 + n);
    assert(t.skip(1).skip(n) =~= u);
    assert(u[0] == t[1 + n]);
    let v = t.skip(2 + n);
    assert(u.skip(1) =~= v);
    assert(v[m] == t[2 + n + m]);
    lemma_arms(c, v, scopes);
    let w = t.skip(2 + n + m);
    assert(v.skip(m) =~= w);
    assert(case_arms(c, v) == (Ok::<Seq<CaseArmView>, ParseErrorView>(scopes), w));
    assert(w[0] == t[2 + n + m]);
    let x = t.skip(3 + n + m);
    assert(w.skip(1) =~= x);
    assert(x[0] == t[3 + n + m]);
    assert(x.skip(1) =~= t.skip(4 + n + m));
}

#[verifier::rlimit(40)]
proof fn lemma_arms(c: Source, t: Seq<TokenView>, arms: Seq<CaseArmView>)
    requires
        said_arms(c, t, arms),
        at(t, arms_len(arms) as int, TypeView::RBrace),
    ensures
        case_arms(c, t) == (
            Ok::<Seq<CaseArmView>, ParseErrorView>(arms),
            t.skip(arms_len(arms) as int),
        ),
    decreases arms, 0int,
{
    if arms.len() == 0 {
        assert(t.skip(0) =~= t);
        assert(arms =~= Seq::<CaseArmView>::empty());
    } else {
        let others = arms.drop_first();
        let arm = arms[0];
        let n = arm_len(arm) as int;
        let m = arms_len(others) as int;
        let u = t.skip(n);
        assert(decreases_to!(arms => arms[0]));
        assert(decreases_to!(arms => others)) by {
            assert(others =~= arms.subrange(1, arms.len() as int));
        }
        assert(said_arm(c, t, arm));
        assert(said_arms(c, u, others));
        assert(arms_len(arms) == n + m);
        lemma_arm(c, t, arm);
        assert(u[m] == t[n + m]);
        lemma_arms(c, u, others);
        assert(u.skip(m) =~= t.skip(n + m));
        assert(seq![arm] + others =~= arms);
        assert(case_arm(c, t) == (Ok::<CaseArmView, ParseErrorView>(arm), u));
        assert(case_arms(c, u) == (
            Ok::<Seq<CaseArmView>, ParseErrorView>(others),
            t.skip(n + m),
        ));
    }
}

/// A pattern that is spelled out is read back.
proof fn lemma_pattern(c: Source, t: Seq<TokenView>, p: CasePatternView)
    requires
        said_pattern(c, t, p),
    ensures
        t.len() > 0,
        t[0].ty != TypeView::RBrace,
        pattern_len(p) <= t.len(),
        case_pattern(c, t) == (
            Ok::<CasePatternView, ParseErrorView>(p),
            t.skip(pattern_len(p) as int),
        ),
{
    match p {
        CasePatternView::VarRef { name, namespace, offset, len, .. } => {
            lemma_ref(
                c,
                t,
                name,
                namespace,
                offset,
                len,
                "expected identifier after `$` in case pattern"@,
            );
        },
        _ => {},
    }
}

/// The tokens of an arm.
proof fn lemma_arm_tokens(t: Seq<TokenView>, n: int, m: int)
    requires
        0 <= n,
        0 <= m,
        at(t, n, TypeView::LBrace),
        at(t, n + 1 + m, TypeView::RBrace),
        at(t, n + 2 + m, TypeView::Semicolon),
    ensures
        ({
            let u = t.skip(n);
            let v = t.skip(n + 2 + m);
            &&& at(u, 0, TypeView::LBrace)
            &&& u.skip(1) == t.skip(n + 1)
            &&& at(u, 1 + m, TypeView::RBrace)
            &&& u.skip(m + 2) == v
            &&& at(v, 0, TypeView::Semicolon)
            &&& v.skip(1) == t.skip(n + 3 + m)
        }),
{
    let u = t.skip(n);
    let v = t.skip(n + 2 + m);
    assert(u[0] == t[n]);
    assert(u.skip(1) =~= t.skip(n + 1));
    assert(u[1 + m] == t[n + 1 + m]);
    assert(u.skip(m + 2) =~= v);
    assert(v[0] == t[n + 2 + m]);
    assert(v.skip(1) =~= t.skip(n + 3 + m));
}

#[verifier::rlimit(40)]
proof fn lemma_arm(c: Source, t: Seq<TokenView>, arm: CaseArmView)
    requires
        said_arm(c, t, arm),
    ensures
        t.len() > 0,
        t[0].ty != TypeView::RBrace,
        0 < arm_len(arm) <= t.len(),
        case_arm(c, t) == (Ok::<CaseArmView, ParseErrorView>(arm), t.skip(arm_len(arm) as int)),
    decreases arm, 0int,
{
    let n = pattern_len(arm.pattern) as int;
    let m = body_len(arm.body) as int;
    let u = t.skip(n);
    let v = t.skip(n + 2 + m);
    lemma_pattern(c, t, arm.pattern);
    lemma_arm_tokens(t, n, m);
    lemma_block(c, u, arm.body);
    assert(block(c, u, "after case pattern"@, "to close case arm body"@) == (
        Ok::<Seq<FnStmtView>, ParseErrorView>(arm.body),
        v,
    ));
    assert(rest(v) == v.skip(1));
}

// ── Declarations ─────────────────────────────────────────────────────────────

/// How many tokens a field of a project takes; a `;` may follow it.
pub open spec fn field_len(t: Seq<TokenView>, value: ExprView) -> int {
    let n = 2 + expr_len(value) as int;
    if at(t, n, TypeView::Semicolon) {
        n + 1
    } else {
        n
    }
}

/// How many tokens a run takes; a `;` may follow it.
pub open spec fn run_len(
    t: Seq<TokenView>,
    chains: Seq<Seq<FnRefView>>,
    qualified: bool,
    closed: bool,
) -> int {
    let n = 4 + chains_len(chains, qualified, closed) as int;
    if at(t, n, TypeView::Semicolon) {
        n + 1
    } else {
        n
    }
}

/// Whether a declaration in a project stands in tokens. Of the runs in it, each
/// has a `;` after its last chain, or none has.
pub open spec fn said_item(c: Source, t: Seq<TokenView>, s: StmtView, closed: bool) -> bool {
    match s {
        StmtView::Var { var_type, name, value, offset, len } => {
            &&& said_var(c, t, var_type, name, value)
            &&& offset == t[0].offset && len == t[0].len
        },
        StmtView::Fn { name, body, offset, len } => {
            &&& at(t, 0, TypeView::Fn)
            &&& at(t, 1, TypeView::Ident(name))
            &&& at(t, 2, TypeView::LBrace)
            &&& said_body(c, t.skip(3), body)
            &&& at(t, 3 + body_len(body) as int, TypeView::RBrace)
            &&& offset == t[0].offset && len == t[0].len
        },
        StmtView::Run { name, chains, offset, len } => said_run(
            t,
            name,
            chains,
            offset,
            len,
            false,
            closed,
        ),
        StmtView::Use { function, alias, offset, len, source_name } => {
            &&& at(t, 0, TypeView::Use)
            &&& at(t, 1, TypeView::Ident(function))
            &&& match alias {
                Some(name) => at(t, 2, TypeView::Ident("as"@)) && at(t, 3, TypeView::Ident(name))
                    && at(t, 4, TypeView::Semicolon),
                None => at(t, 2, TypeView::Semicolon),
            }
            &&& offset == t[0].offset && len == t[0].len && source_name == c.name
        },
        StmtView::Field { key, value, offset, len } => {
            &&& at(t, 0, TypeView::Ident(key.name()))
            &&& at(t, 1, TypeView::Assign)
            &&& said_expr(c, t.skip(2), value)
            &&& offset == t[0].offset
            &&& field_len(t, value) < t.len() && t[field_len(t, value)].offset == offset + len
        },
        _ => false,
    }
}

/// Whether a run stands in tokens.
pub open spec fn said_run(
    t: Seq<TokenView>,
    name: Seq<char>,
    chains: Seq<Seq<FnRefView>>,
    offset: usize,
    len: usize,
    qualified: bool,
    closed: bool,
) -> bool {
    let n = 3 + chains_len(chains, qualified, closed) as int;
    &&& at(t, 0, TypeView::Run)
    &&& at(t, 1, TypeView::Ident(name))
    &&& at(t, 2, TypeView::LBrace)
    &&& said_chains(t.skip(3), chains, qualified, closed)
    &&& offset == t[0].offset
    &&& t[n].offset + t[n].len == offset + len <= usize::MAX
}

/// How many tokens a declaration in a project takes.
pub open spec fn item_len(t: Seq<TokenView>, s: StmtView, closed: bool) -> int {
    match s {
        StmtView::Var { value, .. } => 5 + expr_len(value) as int,
        StmtView::Fn { body, .. } => 4 + body_len(body) as int,
        StmtView::Run { chains, .. } => run_len(t, chains, false, closed),
        StmtView::Use { alias, .. } => if alias is Some {
            5
        } else {
            3
        },
        StmtView::Field { value, .. } => field_len(t, value),
        _ => 0,
    }
}

/// A variable outside functions is read back, at the top and in a project.
pub proof fn law_a_variable_is_read_back(
    c: Source,
    t: Seq<TokenView>,
    ty: VarType,
    name: Seq<char>,
    value: ExprView,
)
    requires
        said_var(c, t, ty, name, value),
    ensures
        ({
            let s = StmtView::Var {
                var_type: ty,
                name,
                value,
                offset: t[0].offset,
                len: t[0].len,
            };
            let r = (Ok::<StmtView, ParseErrorView>(s), t.skip(5 + expr_len(value) as int));
            declaration(c, t) == r && project_item(c, t) == r
        }),
{
    reveal(declaration);
    reveal(project_item);
    lemma_var(c, t, ty, name, value);
}

/// A function is read back with its body, at the top and in a project.
pub proof fn law_a_function_is_read_back(
    c: Source,
    t: Seq<TokenView>,
    name: Seq<char>,
    body: Seq<FnStmtView>,
)
    requires
        at(t, 0, TypeView::Fn),
        at(t, 1, TypeView::Ident(name)),
        at(t, 2, TypeView::LBrace),
        said_body(c, t.skip(3), body),
        at(t, 3 + body_len(body) as int, TypeView::RBrace),
    ensures
        ({
            let s = StmtView::Fn { name, body, offset: t[0].offset, len: t[0].len };
            let r = (Ok::<StmtView, ParseErrorView>(s), t.skip(4 + body_len(body) as int));
            declaration(c, t) == r && project_item(c, t) == r
        }),
{
    reveal(declaration);
    reveal(project_item);
    let m = body_len(body) as int;
    let u = t.skip(2);
    assert(t.skip(1)[0] == t[1]);
    assert(t.skip(1).skip(1) =~= u);
    assert(u[0] == t[2]);
    assert(u.skip(1) =~= t.skip(3));
    assert(u[1 + m] == t[3 + m]);
    lemma_block(c, u, body);
    assert(u.skip(m + 2) =~= t.skip(4 + m));
    assert(block(c, u, "after function name"@, "to close function body"@) == (
        Ok::<Seq<FnStmtView>, ParseErrorView>(body),
        t.skip(4 + m),
    ));
}

proof fn lemma_run(
    c: Source,
    t: Seq<TokenView>,
    name: Seq<char>,
    chains: Seq<Seq<FnRefView>>,
    offset: usize,
    len: usize,
    qualified: bool,
    closed: bool,
)
    requires
        said_run(t, name, chains, offset, len, qualified, closed),
    ensures
        run_len(t, chains, qualified, closed) <= t.len(),
        run_stmt(c, t, qualified) == (
            Ok::<StmtView, ParseErrorView>(StmtView::Run { name, chains, offset, len }),
            t.skip(run_len(t, chains, qualified, closed)),
        ),
{
    let n = chains_len(chains, qualified, closed) as int;
    let u = t.skip(3);
    assert(t.skip(1)[0] == t[1]);
    assert(t.skip(1).skip(1) =~= t.skip(2));
    assert(t.skip(2)[0] == t[2]);
    assert(t.skip(2).skip(1) =~= u);
    law_chains_are_read_back(c, u, chains, qualified, closed);
    let v = t.skip(3 + n);
    assert(u.skip(n) =~= v);
    assert(u[n] == t[3 + n]);
    assert(v[0] == t[3 + n]);
    let w = t.skip(4 + n);
    assert(v.skip(1) =~= w);
    if t.len() > 4 + n {
        assert(w[0] == t[4 + n]);
        assert(w.skip(1) =~= t.skip(5 + n));
    }
}

/// A run is read back with its chains. At the top each call names its project.
pub proof fn law_a_run_is_read_back(
    c: Source,
    t: Seq<TokenView>,
    name: Seq<char>,
    chains: Seq<Seq<FnRefView>>,
    offset: usize,
    len: usize,
    closed: bool,
)
    requires
        c.eof.ty == TypeView::Eof,
    ensures
        said_run(t, name, chains, offset, len, true, closed) ==> declaration(c, t) == (
            Ok::<StmtView, ParseErrorView>(StmtView::Run { name, chains, offset, len }),
            t.skip(run_len(t, chains, true, closed)),
        ),
        said_run(t, name, chains, offset, len, false, closed) ==> project_item(c, t) == (
            Ok::<StmtView, ParseErrorView>(StmtView::Run { name, chains, offset, len }),
            t.skip(run_len(t, chains, false, closed)),
        ),
{
    reveal(declaration);
    reveal(project_item);
    if said_run(t, name, chains, offset, len, true, closed) {
        lemma_run(c, t, name, chains, offset, len, true, closed);
    }
    if said_run(t, name, chains, offset, len, false, closed) {
        lemma_run(c, t, name, chains, offset, len, false, closed);
    }
}

proof fn lemma_use(c: Source, t: Seq<TokenView>, s: StmtView, closed: bool)
    requires
        s is Use,
        said_item(c, t, s, closed),
    ensures
        project_item(c, t) == (
            Ok::<StmtView, ParseErrorView>(s),
            t.skip(item_len(t, s, closed)),
        ),
{
    reveal(project_item);
    assert(t.skip(1)[0] == t[1]);
    assert(t.skip(1).skip(1) =~= t.skip(2));
    assert(t.skip(2)[0] == t[2]);
    assert(t.skip(2).skip(1) =~= t.skip(3));
    reveal_strlit("as");
    if s->Use_alias is Some {
        assert(t.skip(3)[0] == t[3]);
        assert(t.skip(3).skip(1) =~= t.skip(4));
        assert(t.skip(4)[0] == t[4]);
        assert(t.skip(4).skip(1) =~= t.skip(5));
    }
}

proof fn lemma_field(c: Source, t: Seq<TokenView>, s: StmtView, closed: bool)
    requires
        s is Field,
        said_item(c, t, s, closed),
    ensures
        field_stmt(c, t) == (
            Ok::<StmtView, ParseErrorView>(s),
            t.skip(item_len(t, s, closed)),
        ),
        crate::dsl::grammar::starts_field(c, t),
{
    reveal(field_stmt);
    let key = s->Field_key;
    let value = s->Field_value;
    let n = expr_len(value) as int;
    crate::dsl::ast::law_field_names(key, key.name());
    assert(t.skip(1)[0] == t[1]);
    assert(t.skip(1).skip(1) =~= t.skip(2));
    law_an_expression_is_read_back(c, t.skip(2), value);
    let u = t.skip(2 + n);
    assert(t.skip(2).skip(n) =~= u);
    assert(u[0] == t[2 + n]);
    assert(u.skip(1) =~= t.skip(3 + n));
    let x = t.skip(field_len(t, value));
    assert(x[0] == t[field_len(t, value)]);
}

/// Whether declarations in a project stand in tokens, one after another.
pub open spec fn said_items(
    c: Source,
    t: Seq<TokenView>,
    items: Seq<StmtView>,
    closed: bool,
) -> bool
    decreases items.len(),
{
    items.len() > 0 ==> said_item(c, t, items[0], closed) && said_items(
        c,
        t.skip(item_len(t, items[0], closed)),
        items.skip(1),
        closed,
    )
}

/// How many tokens they take.
pub open spec fn items_len(t: Seq<TokenView>, items: Seq<StmtView>, closed: bool) -> int
    decreases items.len(),
{
    if items.len() == 0 {
        0
    } else {
        item_len(t, items[0], closed) + items_len(
            t.skip(item_len(t, items[0], closed)),
            items.skip(1),
            closed,
        )
    }
}

/// The fields among declarations, or the others, in order.
pub open spec fn picked(items: Seq<StmtView>, fields: bool) -> Seq<StmtView>
    decreases items.len(),
{
    if items.len() == 0 {
        Seq::empty()
    } else if items[0] is Field == fields {
        seq![items[0]] + picked(items.skip(1), fields)
    } else {
        picked(items.skip(1), fields)
    }
}

proof fn lemma_item(c: Source, t: Seq<TokenView>, s: StmtView, closed: bool)
    requires
        c.eof.ty == TypeView::Eof,
        said_item(c, t, s, closed),
    ensures
        0 < item_len(t, s, closed) <= t.len(),
        t.len() > 0,
        t[0].ty != TypeView::RBrace,
        t[0].ty != TypeView::RBracket,
        s is Field ==> crate::dsl::grammar::starts_field(c, t) && field_stmt(c, t) == (
            Ok::<StmtView, ParseErrorView>(s),
            t.skip(item_len(t, s, closed)),
        ),
        !(s is Field) ==> !crate::dsl::grammar::starts_field(c, t) && project_item(c, t) == (
            Ok::<StmtView, ParseErrorView>(s),
            t.skip(item_len(t, s, closed)),
        ),
{
    match s {
        StmtView::Var { var_type, name, value, .. } => {
            law_a_variable_is_read_back(c, t, var_type, name, value);
        },
        StmtView::Fn { name, body, .. } => {
            law_a_function_is_read_back(c, t, name, body);
        },
        StmtView::Run { name, chains, offset, len } => {
            law_a_run_is_read_back(c, t, name, chains, offset, len, closed);
            lemma_run(c, t, name, chains, offset, len, false, closed);
        },
        StmtView::Use { .. } => {
            lemma_use(c, t, s, closed);
        },
        StmtView::Field { .. } => {
            lemma_field(c, t, s, closed);
        },
        _ => {},
    }
}

#[verifier::rlimit(40)]
proof fn lemma_items(c: Source, t: Seq<TokenView>, items: Seq<StmtView>, closed: bool)
    requires
        c.eof.ty == TypeView::Eof,
        said_items(c, t, items, closed),
        at(t, items_len(t, items, closed), TypeView::RBrace),
    ensures
        project_items(c, t) == (
            Ok::<(Seq<StmtView>, Seq<StmtView>), ParseErrorView>(
                (picked(items, true), picked(items, false)),
            ),
            t.skip(items_len(t, items, closed)),
        ),
        items_len(t, items, closed) >= 0,
    decreases items.len(),
{
    if items.len() == 0 {
        assert(t.skip(0) =~= t);
    } else {
        let n = item_len(t, items[0], closed);
        let others = items.skip(1);
        let u = t.skip(n);
        let m = items_len(u, others, closed);
        lemma_item(c, t, items[0], closed);
        lemma_items_forward(c, u, others, closed);
        assert(u[m] == t[n + m]);
        lemma_items(c, u, others, closed);
        assert(u.skip(m) =~= t.skip(n + m));
        assert(project_items(c, u) == (
            Ok::<(Seq<StmtView>, Seq<StmtView>), ParseErrorView>(
                (picked(others, true), picked(others, false)),
            ),
            t.skip(n + m),
        ));
    }
}

proof fn lemma_items_forward(c: Source, t: Seq<TokenView>, items: Seq<StmtView>, closed: bool)
    requires
        c.eof.ty == TypeView::Eof,
        said_items(c, t, items, closed),
    ensures
        0 <= items_len(t, items, closed) <= t.len(),
    decreases items.len(),
{
    if items.len() > 0 {
        lemma_item(c, t, items[0], closed);
        lemma_items_forward(c, t.skip(item_len(t, items[0], closed)), items.skip(1), closed);
    }
}

proof fn lemma_listed(c: Source, t: Seq<TokenView>, fields: Seq<StmtView>, closed: bool)
    requires
        c.eof.ty == TypeView::Eof,
        said_items(c, t, fields, closed),
        forall|i: int| 0 <= i < fields.len() ==> #[trigger] fields[i] is Field,
        at(t, items_len(t, fields, closed), TypeView::RBracket),
    ensures
        bracket_fields(c, t) == (
            Ok::<Seq<StmtView>, ParseErrorView>(fields),
            t.skip(items_len(t, fields, closed)),
        ),
    decreases fields.len(),
{
    if fields.len() == 0 {
        assert(t.skip(0) =~= t);
        assert(fields =~= Seq::<StmtView>::empty());
    } else {
        let n = item_len(t, fields[0], closed);
        let others = fields.skip(1);
        let u = t.skip(n);
        let m = items_len(u, others, closed);
        lemma_item(c, t, fields[0], closed);
        lemma_items_forward(c, u, others, closed);
        assert(u[m] == t[n + m]);
        assert forall|i: int| 0 <= i < others.len() implies #[trigger] others[i] is Field by {
            assert(others[i] == fields[i + 1]);
        }
        lemma_listed(c, u, others, closed);
        assert(u.skip(m) =~= t.skip(n + m));
        assert(seq![fields[0]] + others =~= fields);
    }
}

/// A project is read back: its fields, those in brackets first, and its other
/// declarations, each in order. The `;` after it may be missing.
#[verifier::rlimit(40)]
pub proof fn law_a_project_is_read_back(
    c: Source,
    t: Seq<TokenView>,
    name: Seq<char>,
    listed: Seq<StmtView>,
    items: Seq<StmtView>,
    closed: bool,
)
    requires
        c.eof.ty == TypeView::Eof,
        at(t, 0, TypeView::Pr),
        at(t, 1, TypeView::Ident(name)),
        at(t, 2, TypeView::LBracket),
        said_items(c, t.skip(3), listed, closed),
        forall|i: int| 0 <= i < listed.len() ==> #[trigger] listed[i] is Field,
        ({
            let n = 3 + items_len(t.skip(3), listed, closed);
            let m = n + 2 + items_len(t.skip(n + 2), items, closed);
            &&& at(t, n, TypeView::RBracket)
            &&& at(t, n + 1, TypeView::LBrace)
            &&& said_items(c, t.skip(n + 2), items, closed)
            &&& at(t, m, TypeView::RBrace)
            &&& at(t, m + 1, TypeView::Semicolon)
        }),
    ensures
        ({
            let n = 3 + items_len(t.skip(3), listed, closed);
            let m = n + 2 + items_len(t.skip(n + 2), items, closed);
            declaration(c, t) == (
                Ok::<StmtView, ParseErrorView>(
                    StmtView::Project {
                        name,
                        fields: listed + picked(items, true),
                        body: picked(items, false),
                    },
                ),
                t.skip(m + 2),
            )
        }),
{
    reveal(declaration);
    let k = items_len(t.skip(3), listed, closed);
    let n = 3 + k;
    let x = t.skip(n + 2);
    let l = items_len(x, items, closed);
    let m = n + 2 + l;
    assert(t.skip(1)[0] == t[1]);
    assert(t.skip(1).skip(1) =~= t.skip(2));
    assert(t.skip(2)[0] == t[2]);
    assert(t.skip(2).skip(1) =~= t.skip(3));
    lemma_items_forward(c, t.skip(3), listed, closed);
    assert(t.skip(3)[k] == t[n]);
    lemma_listed(c, t.skip(3), listed, closed);
    assert(t.skip(3).skip(k) =~= t.skip(n));
    assert(t.skip(n)[0] == t[n]);
    assert(t.skip(n).skip(1) =~= t.skip(n + 1));
    assert(field_list(c, t.skip(2)) == (
        Ok::<Seq<StmtView>, ParseErrorView>(listed),
        t.skip(n + 1),
    ));
    assert(t.skip(n + 1)[0] == t[n + 1]);
    assert(t.skip(n + 1).skip(1) =~= x);
    lemma_items_forward(c, x, items, closed);
    assert(x[l] == t[m]);
    lemma_items(c, x, items, closed);
    assert(x.skip(l) =~= t.skip(m));
    assert(t.skip(m)[0] == t[m]);
    assert(t.skip(m).skip(1) =~= t.skip(m + 1));
    assert(t.skip(m + 1)[0] == t[m + 1]);
    assert(t.skip(m + 1).skip(1) =~= t.skip(m + 2));
    assert(project_stmt(c, t) == (
        Ok::<StmtView, ParseErrorView>(
            StmtView::Project {
                name,
                fields: listed + picked(items, true),
                body: picked(items, false),
            },
        ),
        t.skip(m + 2),
    ));
}

/// Whether the names in a `seq` or `par` block stand in tokens, each with its `;`.
pub open spec fn said_names(t: Seq<TokenView>, names: Seq<Seq<char>>) -> bool {
    forall|i: int|
        0 <= i < names.len() ==> at(t, 2 * i, TypeView::Ident(#[trigger] names[i])) && at(
            t,
            2 * i + 1,
            TypeView::Semicolon,
        )
}

proof fn lemma_names(c: Source, t: Seq<TokenView>, names: Seq<Seq<char>>, eof: Seq<char>)
    requires
        said_names(t, names),
        at(t, 2 * names.len() as int, TypeView::RBrace),
    ensures
        fn_names(c, t, eof) == (
            Ok::<Seq<Seq<char>>, ParseErrorView>(names),
            t.skip(2 * names.len() as int),
        ),
    decreases names.len(),
{
    if names.len() == 0 {
        assert(t.skip(0) =~= t);
        assert(names =~= Seq::<Seq<char>>::empty());
    } else {
        let others = names.skip(1);
        let u = t.skip(2);
        assert(at(t, 0, TypeView::Ident(names[0])));
        assert(t.skip(1)[0] == t[1]);
        assert(t.skip(1).skip(1) =~= u);
        assert forall|i: int| 0 <= i < others.len() implies at(
            u,
            2 * i,
            TypeView::Ident(#[trigger] others[i]),
        ) && at(u, 2 * i + 1, TypeView::Semicolon) by {
            assert(others[i] == names[i + 1]);
            assert(u[2 * i] == t[2 * (i + 1)]);
            assert(u[2 * i + 1] == t[2 * (i + 1) + 1]);
        }
        assert(u[2 * others.len() as int] == t[2 * names.len() as int]);
        lemma_names(c, u, others, eof);
        assert(u.skip(2 * others.len() as int) =~= t.skip(2 * names.len() as int));
        assert(seq![names[0]] + others =~= names);
    }
}

/// A `seq` and a `par` block are read back with their name and the names in them.
pub proof fn law_a_block_of_names_is_read_back(
    c: Source,
    t: Seq<TokenView>,
    name: Seq<char>,
    fns: Seq<Seq<char>>,
)
    requires
        at(t, 1, TypeView::Ident(name)),
        at(t, 2, TypeView::LBrace),
        said_names(t.skip(3), fns),
        at(t, 3 + 2 * fns.len() as int, TypeView::RBrace),
    ensures
        t[0].ty == TypeView::SeqKw ==> declaration(c, t) == (
            Ok::<StmtView, ParseErrorView>(StmtView::SeqBlock { name, fns }),
            t.skip(4 + 2 * fns.len() as int),
        ),
        t[0].ty == TypeView::ParKw ==> declaration(c, t) == (
            Ok::<StmtView, ParseErrorView>(StmtView::ParBlock { name, fns }),
            t.skip(4 + 2 * fns.len() as int),
        ),
{
    reveal(declaration);
    let n = 2 * fns.len() as int;
    let u = t.skip(3);
    assert(t.skip(1)[0] == t[1]);
    assert(t.skip(1).skip(1) =~= t.skip(2));
    assert(t.skip(2)[0] == t[2]);
    assert(t.skip(2).skip(1) =~= u);
    assert(u[n] == t[3 + n]);
    lemma_names(c, u, fns, "unexpected end of file in seq declaration (expected '}')"@);
    lemma_names(c, u, fns, "unexpected end of file in par declaration (expected '}')"@);
    assert(u.skip(n) =~= t.skip(3 + n));
    assert(t.skip(3 + n)[0] == t[3 + n]);
    assert(t.skip(3 + n).skip(1) =~= t.skip(4 + n));
}

/// The settings at the top are read back with their values.
pub proof fn law_settings_are_read_back(
    c: Source,
    t: Seq<TokenView>,
    text: Seq<char>,
    value: ExprView,
)
    requires
        at(t, 1, TypeView::Assign),
    ensures
        at(t, 0, TypeView::Shell) && at(t, 2, TypeView::Backtick(text)) && at(
            t,
            3,
            TypeView::Semicolon,
        ) ==> declaration(c, t) == (
            Ok::<StmtView, ParseErrorView>(StmtView::Shell { value: text }),
            t.skip(4),
        ),
        at(t, 0, TypeView::Sanctuary) && said_expr(c, t.skip(2), value) && at(
            t,
            2 + expr_len(value) as int,
            TypeView::Semicolon,
        ) ==> declaration(c, t) == (
            Ok::<StmtView, ParseErrorView>(StmtView::Sanctuary { value }),
            t.skip(3 + expr_len(value) as int),
        ),
{
    reveal(declaration);
    assert(t.skip(1)[0] == t[1]);
    assert(t.skip(1).skip(1) =~= t.skip(2));
    if t.len() > 3 {
        assert(t.skip(2)[0] == t[2]);
        assert(t.skip(2).skip(1) =~= t.skip(3));
        assert(t.skip(3)[0] == t[3]);
        assert(t.skip(3).skip(1) =~= t.skip(4));
    }
    if said_expr(c, t.skip(2), value) {
        let n = expr_len(value) as int;
        law_an_expression_is_read_back(c, t.skip(2), value);
        assert(t.skip(2).skip(n) =~= t.skip(2 + n));
        if t.len() > 2 + n {
            assert(t.skip(2 + n)[0] == t[2 + n]);
            assert(t.skip(2 + n).skip(1) =~= t.skip(3 + n));
        }
    }
}

// ── Files ────────────────────────────────────────────────────────────────────

/// A file is read item by item, in order: an import with its path, and any
/// declaration. At its end there is nothing more.
pub proof fn law_a_file_is_read_in_order(c: Source, t: Seq<TokenView>, path: ExprView)
    requires
        t.len() > 0,
    ensures
        t[0].ty == TypeView::Eof ==> file(c, t).0.len() == 0 && file(c, t).1.len() == 0,
        at(t, 0, TypeView::Import) && said_expr(c, t.skip(1), path) && at(
            t,
            1 + expr_len(path) as int,
            TypeView::Semicolon,
        ) ==> file(c, t) == (
            seq![TopLevelView::Import(path)] + file(c, t.skip(2 + expr_len(path) as int)).0,
            file(c, t.skip(2 + expr_len(path) as int)).1,
        ),
        t[0].ty != TypeView::Eof && t[0].ty != TypeView::Import && declaration(c, t).0 is Ok
            && declaration(c, t).1.len() < t.len() ==> file(c, t) == (
            seq![TopLevelView::Stmt(declaration(c, t).0->Ok_0)] + file(c, declaration(c, t).1).0,
            file(c, declaration(c, t).1).1,
        ),
{
    reveal(item);
    if at(t, 0, TypeView::Import) && said_expr(c, t.skip(1), path) && at(
        t,
        1 + expr_len(path) as int,
        TypeView::Semicolon,
    ) {
        let n = expr_len(path) as int;
        law_an_expression_is_read_back(c, t.skip(1), path);
        assert(t.skip(1)[0] == t[1]);
        assert(t.skip(1).skip(n) =~= t.skip(1 + n));
        assert(t.skip(1 + n)[0] == t[1 + n]);
        assert(t.skip(1 + n).skip(1) =~= t.skip(2 + n));
        assert(item(c, t) == (
            Ok::<Option<TopLevelView>, ParseErrorView>(Some(TopLevelView::Import(path))),
            t.skip(2 + n),
        ));
    }
}

/// After an error, which is kept, the reading goes on with the next declaration,
/// and with nothing before it.
pub proof fn law_reading_goes_on_after_an_error(c: Source, t: Seq<TokenView>, k: int)
    requires
        item(c, t).0 is Err,
        cur(c, t).ty != TypeView::Eof,
        0 <= k <= item(c, t).1.len(),
        forall|i: int|
            0 <= i < k ==> {
                let ty = (#[trigger] item(c, t).1[i]).ty;
                ty != TypeView::Eof && ty != TypeView::Var && ty != TypeView::Pr && ty
                    != TypeView::Fn && ty != TypeView::Run
            },
        k < item(c, t).1.len() ==> {
            let ty = item(c, t).1[k].ty;
            ty == TypeView::Eof || ty == TypeView::Var || ty == TypeView::Pr || ty == TypeView::Fn
                || ty == TypeView::Run
        },
        item(c, t).1.len() - k < t.len(),
    ensures
        ({
            let u = item(c, t).1.skip(k);
            file(c, t) == (file(c, u).0, seq![item(c, t).0->Err_0] + file(c, u).1)
        }),
{
    lemma_boundary(c, item(c, t).1, k);
}

proof fn lemma_boundary(c: Source, t: Seq<TokenView>, k: int)
    requires
        0 <= k <= t.len(),
        forall|i: int|
            0 <= i < k ==> (#[trigger] t[i]).ty != TypeView::Eof && !is_boundary(t[i].ty),
        k < t.len() ==> t[k].ty == TypeView::Eof || is_boundary(t[k].ty),
    ensures
        from_boundary(c, t) == t.skip(k),
    decreases k,
{
    if k == 0 {
        assert(t.skip(0) =~= t);
    } else {
        assert(t[0].ty != TypeView::Eof && !is_boundary(t[0].ty));
        let u = t.skip(1);
        assert forall|i: int| 0 <= i < k - 1 implies (#[trigger] u[i]).ty != TypeView::Eof
            && !is_boundary(u[i].ty) by {
            assert(u[i] == t[i + 1]);
        }
        if k < t.len() {
            assert(u[k - 1] == t[k]);
        }
        lemma_boundary(c, u, k - 1);
        assert(u.skip(k - 1) =~= t.skip(k));
    }
}

} // verus!
