//! What is spelled out in tokens is read back: statements and declarations of the
//! template language, whatever they hold and however they are nested.
use vstd::prelude::*;
use crate::dsl::ast::ProjectField;
use crate::plan::{ArmPatternView, CallView};
use crate::syntax::grammar::{
    arm_pattern, block, closed_template, declaration, env_block, env_pairs, field_stmt, fields,
    file, fn_stmt, item, project_item, project_items, rest, run_call, run_chains, skip_semicolon,
    statement, statements, switch_arm, switch_arms, switch_block, var_stmt, Source,
};
use crate::syntax::lexer::{TokenView, TypeView};
use crate::syntax::{
    ArmView, EnvPairView, FnStmtView, PartView, StmtView, TemplateView, TopLevelView,
};

verus! {

/// Whether tokens start with words.
pub open spec fn starts(t: Seq<TokenView>, words: Seq<TypeView>) -> bool {
    words.len() <= t.len() && forall|i: int|
        0 <= i < words.len() ==> (#[trigger] t[i]).ty == words[i]
}

proof fn lemma_starts_join(t: Seq<TokenView>, a: Seq<TypeView>, b: Seq<TypeView>)
    requires
        starts(t, a + b),
    ensures
        starts(t, a),
        starts(t.skip(a.len() as int), b),
        t.skip(a.len() as int).skip(b.len() as int) == t.skip((a + b).len() as int),
{
    let u = t.skip(a.len() as int);
    assert forall|i: int| 0 <= i < a.len() implies (#[trigger] t[i]).ty == a[i] by {
        assert((a + b)[i] == a[i]);
    }
    assert forall|i: int| 0 <= i < b.len() implies (#[trigger] u[i]).ty == b[i] by {
        assert(u[i] == t[i + a.len()]);
        assert((a + b)[i + a.len()] == b[i]);
    }
    assert(u.skip(b.len() as int) =~= t.skip((a + b).len() as int));
}

// ── Runs ─────────────────────────────────────────────────────────────────────

/// The words of a call: `project::function`.
pub open spec fn call_words(call: CallView) -> Seq<TypeView> {
    seq![TypeView::Ident(call.project), TypeView::NamespaceSep, TypeView::Ident(call.function)]
}

/// The words of a chain: its calls, with `=>` between each two.
pub open spec fn chain_words(chain: Seq<CallView>) -> Seq<TypeView>
    decreases chain.len(),
{
    if chain.len() == 0 {
        Seq::empty()
    } else if chain.len() == 1 {
        call_words(chain[0])
    } else {
        call_words(chain[0]) + (seq![TypeView::Arrow] + chain_words(chain.skip(1)))
    }
}

/// The words of chains, a `;` after each; after the last it may be missing.
pub open spec fn chains_words(chains: Seq<Seq<CallView>>, closed: bool) -> Seq<TypeView>
    decreases chains.len(),
{
    if chains.len() == 0 {
        Seq::empty()
    } else if chains.len() == 1 && !closed {
        chain_words(chains[0])
    } else {
        chain_words(chains[0]) + (seq![TypeView::Semicolon] + chains_words(
            chains.skip(1),
            closed,
        ))
    }
}

proof fn lemma_call(c: Source, t: Seq<TokenView>, call: CallView)
    requires
        starts(t, call_words(call)),
    ensures
        run_call(c, t) == (Ok::<CallView, crate::dsl::error::ParseErrorView>(call), t.skip(3)),
{
    let w = call_words(call);
    assert(t[0].ty == w[0]);
    assert(t[1].ty == w[1]);
    assert(t[2].ty == w[2]);
    assert(t.skip(1).skip(1) =~= t.skip(2));
    assert(t.skip(2).skip(1) =~= t.skip(3));
}

/// A chain that is read to its end, with what came before it in the same chain.
proof fn lemma_chain(c: Source, t: Seq<TokenView>, done: Seq<CallView>, chain: Seq<CallView>)
    requires
        chain.len() > 0,
        starts(t, chain_words(chain)),
        chain_words(chain).len() < t.len(),
        t[chain_words(chain).len() as int].ty == TypeView::Semicolon
            || t[chain_words(chain).len() as int].ty == TypeView::RBrace,
    ensures
        ({
            let n = chain_words(chain).len();
            let all = done + chain;
            if t[n as int].ty == TypeView::RBrace {
                run_chains(c, t, done) == (
                    Ok::<Seq<Seq<CallView>>, crate::dsl::error::ParseErrorView>(seq![all]),
                    t.skip(n as int),
                )
            } else {
                run_chains(c, t, done) == match run_chains(c, t.skip(n as int + 1), Seq::empty()) {
                    (Err(e), v) => (Err(e), v),
                    (Ok(more), v) => (Ok(seq![all] + more), v),
                }
            }
        }),
    decreases chain.len(),
{
    let first = call_words(chain[0]);
    if chain.len() == 1 {
        lemma_call(c, t, chain[0]);
        assert(t[0].ty == first[0]);
        let u = t.skip(3);
        assert(u[0] == t[3]);
        assert(u.skip(1) =~= t.skip(4));
        assert(done.push(chain[0]) =~= done + chain);
    } else {
        let rest = chain.skip(1);
        let words = seq![TypeView::Arrow] + chain_words(rest);
        lemma_starts_join(t, first, words);
        lemma_call(c, t, chain[0]);
        assert(t[0].ty == first[0]);
        let u = t.skip(3);
        lemma_starts_join(u, seq![TypeView::Arrow], chain_words(rest));
        assert(u[0].ty == seq![TypeView::Arrow][0]);
        let v = u.skip(1);
        let k = chain_words(rest).len();
        let n = chain_words(chain).len();
        assert(n == k + 4);
        assert(v =~= t.skip(4));
        assert(v[k as int] == t[n as int]);
        lemma_chain(c, v, done.push(chain[0]), rest);
        assert(done.push(chain[0]) + rest =~= done + chain);
        assert(v.skip(k as int) =~= t.skip(n as int));
        assert(v.skip(k as int + 1) =~= t.skip(n as int + 1));
    }
}

/// Calls that are joined by `=>` form one chain, in order, and `;` separates
/// chains: chains that are spelled out are read back as they are.
pub proof fn law_chains_are_read_back(
    c: Source,
    t: Seq<TokenView>,
    chains: Seq<Seq<CallView>>,
    closed: bool,
)
    requires
        forall|i: int| 0 <= i < chains.len() ==> (#[trigger] chains[i]).len() > 0,
        starts(t, chains_words(chains, closed) + seq![TypeView::RBrace]),
    ensures
        run_chains(c, t, Seq::empty()) == (
            Ok::<Seq<Seq<CallView>>, crate::dsl::error::ParseErrorView>(chains),
            t.skip(chains_words(chains, closed).len() as int),
        ),
    decreases chains.len(),
{
    let words = chains_words(chains, closed);
    let n = words.len();
    lemma_starts_join(t, words, seq![TypeView::RBrace]);
    assert(t.skip(n as int)[0].ty == seq![TypeView::RBrace][0]);
    assert(t[n as int].ty == TypeView::RBrace);
    if chains.len() == 0 {
        assert(chains =~= Seq::<Seq<CallView>>::empty());
        assert(t.skip(0) =~= t);
    } else {
        let first = chains[0];
        assert(Seq::<CallView>::empty() + first =~= first);
        if chains.len() == 1 && !closed {
            lemma_chain(c, t, Seq::empty(), first);
            assert(seq![first] =~= chains);
        } else {
            let rest = chains.skip(1);
            let more = chains_words(rest, closed);
            lemma_starts_join(t, chain_words(first), seq![TypeView::Semicolon] + more);
            let k = chain_words(first).len();
            let u = t.skip(k as int);
            lemma_starts_join(u, seq![TypeView::Semicolon], more);
            assert(u[0].ty == seq![TypeView::Semicolon][0]);
            assert(t[k as int] == u[0]);
            lemma_chain(c, t, Seq::empty(), first);
            let v = t.skip(k as int + 1);
            assert(u.skip(1) =~= v);
            assert(starts(v, more + seq![TypeView::RBrace])) by {
                let all = more + seq![TypeView::RBrace];
                assert forall|i: int| 0 <= i < all.len() implies (#[trigger] v[i]).ty == all[i] by {
                    assert(v[i] == t[i + k + 1]);
                    if i < more.len() {
                        assert(words[i + k + 1] == more[i]);
                    }
                }
            }
            assert forall|i: int| 0 <= i < rest.len() implies (#[trigger] rest[i]).len() > 0 by {
                assert(rest[i] == chains[i + 1]);
            }
            law_chains_are_read_back(c, v, rest, closed);
            assert(v.skip(more.len() as int) =~= t.skip(n as int));
            assert(seq![first] + rest =~= chains);
        }
    }
}

// ── Statements ───────────────────────────────────────────────────────────────

/// A way to spell a literal text as a template.
pub open spec fn spells_texts(f: spec_fn(Seq<char>) -> TemplateView) -> bool {
    forall|s: Seq<char>| (#[trigger] f(s)).parts == seq![PartView::Lit(s)]
}

/// The words of a variable of an `env` block: `KEY = value`.
pub open spec fn pair_words(pair: EnvPairView) -> Seq<TypeView> {
    seq![TypeView::Ident(pair.key), TypeView::Assign, TypeView::Template(pair.value)]
}

pub open spec fn pairs_words(pairs: Seq<EnvPairView>) -> Seq<TypeView>
    decreases pairs.len(),
{
    if pairs.len() == 0 {
        Seq::empty()
    } else {
        pair_words(pairs[0]) + pairs_words(pairs.skip(1))
    }
}

/// The word of a pattern: a template that holds its text, or `_`.
pub open spec fn pattern_word(
    pattern: ArmPatternView,
    f: spec_fn(Seq<char>) -> TemplateView,
) -> TypeView {
    match pattern {
        ArmPatternView::Lit(s) => TypeView::Template(f(s)),
        ArmPatternView::Default => TypeView::Ident("_"@),
    }
}

/// The words of a statement.
pub open spec fn stmt_words(s: FnStmtView, f: spec_fn(Seq<char>) -> TemplateView) -> Seq<TypeView>
    decreases s,
{
    match s {
        FnStmtView::Log(t) => seq![TypeView::Log, TypeView::Template(t), TypeView::Semicolon],
        FnStmtView::Cd(t) => seq![TypeView::Cd, TypeView::Template(t), TypeView::Semicolon],
        FnStmtView::Bind { target: None, value } => seq![
            TypeView::Exec,
            TypeView::Template(value),
            TypeView::Semicolon,
        ],
        FnStmtView::Bind { target: Some(name), value } => seq![
            TypeView::Bind,
            TypeView::Ident(name),
            TypeView::Assign,
            TypeView::Template(value),
            TypeView::Semicolon,
        ],
        FnStmtView::EnvBlock { pairs, body } => seq![TypeView::Env, TypeView::LBracket] + (
        pairs_words(pairs) + (seq![TypeView::RBracket, TypeView::LBrace] + (body_words(body, f)
            + seq![TypeView::RBrace, TypeView::Semicolon]))),
        FnStmtView::Switch { subject, arms } => seq![
            TypeView::Switch,
            TypeView::Template(subject),
            TypeView::LBrace,
        ] + (arms_words(arms, f) + seq![TypeView::RBrace, TypeView::Semicolon]),
    }
}

/// The words of statements, one after another.
pub open spec fn body_words(body: Seq<FnStmtView>, f: spec_fn(Seq<char>) -> TemplateView) -> Seq<
    TypeView,
>
    decreases body,
{
    if body.len() == 0 {
        Seq::empty()
    } else {
        body_words(body.drop_last(), f) + stmt_words(body.last(), f)
    }
}

/// The words of arms, one after another.
pub open spec fn arms_words(arms: Seq<ArmView>, f: spec_fn(Seq<char>) -> TemplateView) -> Seq<
    TypeView,
>
    decreases arms,
{
    if arms.len() == 0 {
        Seq::empty()
    } else {
        arms_words(arms.drop_last(), f) + arm_words(arms.last(), f)
    }
}

/// The words of an arm: `case pattern { body };`.
pub open spec fn arm_words(arm: ArmView, f: spec_fn(Seq<char>) -> TemplateView) -> Seq<TypeView>
    decreases arm,
{
    seq![TypeView::Case, pattern_word(arm.pattern, f), TypeView::LBrace] + (body_words(arm.body, f)
        + seq![TypeView::RBrace, TypeView::Semicolon])
}

type Failure = crate::dsl::error::ParseErrorView;

proof fn lemma_pairs(c: Source, t: Seq<TokenView>, pairs: Seq<EnvPairView>)
    requires
        starts(t, pairs_words(pairs) + seq![TypeView::RBracket]),
    ensures
        env_pairs(c, t) == (
            Ok::<Seq<EnvPairView>, Failure>(pairs),
            t.skip(pairs_words(pairs).len() as int),
        ),
    decreases pairs.len(),
{
    let close = seq![TypeView::RBracket];
    if pairs.len() == 0 {
        assert(pairs_words(pairs) + close =~= close);
        assert(t[0].ty == close[0]);
        assert(t.skip(0) =~= t);
        assert(pairs =~= Seq::<EnvPairView>::empty());
    } else {
        let w = pair_words(pairs[0]);
        let more = pairs_words(pairs.skip(1));
        assert(pairs_words(pairs) + close =~= w + (more + close));
        lemma_starts_join(t, w, more + close);
        assert(t[0].ty == w[0]);
        assert(t[1].ty == w[1]);
        assert(t[2].ty == w[2]);
        assert(t.skip(1).skip(1) =~= t.skip(2));
        assert(t.skip(2).skip(1) =~= t.skip(3));
        lemma_pairs(c, t.skip(3), pairs.skip(1));
        assert(t.skip(3).skip(more.len() as int) =~= t.skip(pairs_words(pairs).len() as int));
        assert(seq![pairs[0]] + pairs.skip(1) =~= pairs);
    }
}

/// The words of statements can be split after the first.
proof fn lemma_body_first(body: Seq<FnStmtView>, f: spec_fn(Seq<char>) -> TemplateView)
    requires
        body.len() > 0,
    ensures
        body_words(body, f) == stmt_words(body[0], f) + body_words(body.skip(1), f),
    decreases body.len(),
{
    if body.len() == 1 {
        assert(body.drop_last() =~= Seq::<FnStmtView>::empty());
        assert(body.skip(1) =~= Seq::<FnStmtView>::empty());
        assert(body_words(body.drop_last(), f) =~= Seq::<TypeView>::empty());
        assert(body_words(body.skip(1), f) =~= Seq::<TypeView>::empty());
        assert(body_words(body, f) =~= stmt_words(body[0], f) + body_words(body.skip(1), f));
    } else {
        let init = body.drop_last();
        lemma_body_first(init, f);
        assert(init[0] == body[0]);
        assert(init.skip(1) =~= body.skip(1).drop_last());
        assert(body.skip(1).last() == body.last());
        let (a, b, z) = (
            stmt_words(body[0], f),
            body_words(init.skip(1), f),
            stmt_words(body.last(), f),
        );
        assert(a + b + z =~= a + (b + z));
    }
}

proof fn lemma_arms_first(arms: Seq<ArmView>, f: spec_fn(Seq<char>) -> TemplateView)
    requires
        arms.len() > 0,
    ensures
        arms_words(arms, f) == arm_words(arms[0], f) + arms_words(arms.skip(1), f),
    decreases arms.len(),
{
    if arms.len() == 1 {
        assert(arms.drop_last() =~= Seq::<ArmView>::empty());
        assert(arms.skip(1) =~= Seq::<ArmView>::empty());
        assert(arms_words(arms.drop_last(), f) =~= Seq::<TypeView>::empty());
        assert(arms_words(arms.skip(1), f) =~= Seq::<TypeView>::empty());
        assert(arms_words(arms, f) =~= arm_words(arms[0], f) + arms_words(arms.skip(1), f));
    } else {
        let init = arms.drop_last();
        lemma_arms_first(init, f);
        assert(init[0] == arms[0]);
        assert(init.skip(1) =~= arms.skip(1).drop_last());
        assert(arms.skip(1).last() == arms.last());
        let (a, b, z) = (
            arm_words(arms[0], f),
            arms_words(init.skip(1), f),
            arm_words(arms.last(), f),
        );
        assert(a + b + z =~= a + (b + z));
    }
}

/// The first word of a statement closes nothing.
proof fn lemma_stmt_opens(s: FnStmtView, f: spec_fn(Seq<char>) -> TemplateView)
    ensures
        stmt_words(s, f).len() > 0,
        stmt_words(s, f)[0] != TypeView::RBrace,
{
}

/// A statement that is spelled out is read back as itself: its templates, names,
/// variables, patterns and bodies, in order.
pub proof fn law_a_statement_is_read_back(
    c: Source,
    t: Seq<TokenView>,
    s: FnStmtView,
    f: spec_fn(Seq<char>) -> TemplateView,
)
    requires
        spells_texts(f),
        starts(t, stmt_words(s, f)),
    ensures
        statement(c, t) == (
            Ok::<FnStmtView, Failure>(s),
            t.skip(stmt_words(s, f).len() as int),
        ),
    decreases s, 0int,
{
    let w = stmt_words(s, f);
    assert(t[0].ty == w[0]);
    match s {
        FnStmtView::Log(_) => {
            lemma_simple(c, t, w);
        },
        FnStmtView::Cd(_) => {
            lemma_simple(c, t, w);
        },
        FnStmtView::Bind { target: None, .. } => {
            lemma_simple(c, t, w);
        },
        FnStmtView::Bind { target: Some(_), .. } => {
            assert(t[1].ty == w[1] && t[2].ty == w[2] && t[3].ty == w[3] && t[4].ty == w[4]);
            assert(t.skip(1).skip(1) =~= t.skip(2));
            assert(t.skip(2).skip(1) =~= t.skip(3));
            assert(t.skip(3).skip(1) =~= t.skip(4));
            assert(t.skip(4).skip(1) =~= t.skip(5));
        },
        FnStmtView::EnvBlock { pairs, body } => {
            lemma_env(c, t, pairs, body, f);
        },
        FnStmtView::Switch { subject, arms } => {
            lemma_switch(c, t, subject, arms, f);
        },
    }
}

proof fn lemma_simple(c: Source, t: Seq<TokenView>, w: Seq<TypeView>)
    requires
        starts(t, w),
        w.len() == 3,
        w[1] is Template,
        w[2] == TypeView::Semicolon,
    ensures
        forall|context: Seq<char>|
            #[trigger] closed_template(c, t.skip(1), context) == (
                Ok::<TemplateView, Failure>(w[1]->Template_0),
                t.skip(3),
            ),
{
    assert(t[1].ty == w[1] && t[2].ty == w[2]);
    assert(t.skip(1).skip(1) =~= t.skip(2));
    assert(t.skip(2).skip(1) =~= t.skip(3));
}

#[verifier::rlimit(40)]
proof fn lemma_env(
    c: Source,
    t: Seq<TokenView>,
    pairs: Seq<EnvPairView>,
    body: Seq<FnStmtView>,
    f: spec_fn(Seq<char>) -> TemplateView,
)
    requires
        spells_texts(f),
        starts(t, stmt_words(FnStmtView::EnvBlock { pairs, body }, f)),
    ensures
        env_block(c, t) == (
            Ok::<FnStmtView, Failure>(FnStmtView::EnvBlock { pairs, body }),
            t.skip(stmt_words(FnStmtView::EnvBlock { pairs, body }, f).len() as int),
        ),
    decreases body, 2int,
{
    let p = pairs_words(pairs);
    let b = body_words(body, f);
    lemma_env_tokens(t, p, b);
    let u = t.skip(2);
    let v = u.skip(p.len() as int);
    let x = t.skip(p.len() as int + 3);
    let y = x.skip(b.len() as int + 2);
    lemma_pairs(c, u, pairs);
    lemma_block(c, x, body, f);
    assert(rest(t) == t.skip(1));
    assert(rest(t.skip(1)) == u);
    assert(env_pairs(c, u).1 == v);
    assert(rest(v) == x);
    assert(block(c, x, "to open env block body"@, "to close env block body"@) == (
        Ok::<Seq<FnStmtView>, Failure>(body),
        y,
    ));
    assert(skip_semicolon(c, y) == y.skip(1));
}

/// The tokens of an `env` block.
proof fn lemma_env_tokens(t: Seq<TokenView>, p: Seq<TypeView>, b: Seq<TypeView>)
    requires
        starts(
            t,
            seq![TypeView::Env, TypeView::LBracket] + (p + (seq![
                TypeView::RBracket,
                TypeView::LBrace,
            ] + (b + seq![TypeView::RBrace, TypeView::Semicolon]))),
        ),
    ensures
        ({
            let u = t.skip(2);
            let v = u.skip(p.len() as int);
            let x = t.skip(p.len() as int + 3);
            let y = x.skip(b.len() as int + 2);
            &&& t.len() >= p.len() + b.len() + 6
            &&& t[0].ty == TypeView::Env
            &&& t[1].ty == TypeView::LBracket
            &&& t.skip(1).skip(1) == u
            &&& starts(u, p + seq![TypeView::RBracket])
            &&& v.len() > 0
            &&& v[0].ty == TypeView::RBracket
            &&& v.skip(1) == x
            &&& starts(
                x,
                seq![TypeView::LBrace] + (b + seq![TypeView::RBrace, TypeView::Semicolon]),
            )
            &&& y.len() > 0
            &&& y[0].ty == TypeView::Semicolon
            &&& y.skip(1) == t.skip(p.len() as int + b.len() as int + 6)
        }),
{
    let head = seq![TypeView::Env, TypeView::LBracket];
    let end = seq![TypeView::RBrace, TypeView::Semicolon];
    let inner = seq![TypeView::LBrace] + (b + end);
    let close = seq![TypeView::RBracket];
    let u = t.skip(2);
    let v = u.skip(p.len() as int);
    let x = t.skip(p.len() as int + 3);
    let y = x.skip(b.len() as int + 2);
    assert(seq![TypeView::RBracket, TypeView::LBrace] + (b + end) =~= close + inner);
    assert(p + (close + inner) =~= (p + close) + inner);
    lemma_starts_join(t, head, (p + close) + inner);
    assert(t[0].ty == head[0] && t[1].ty == head[1]);
    lemma_starts_join(u, p + close, inner);
    assert(v[0] == u[p.len() as int]);
    assert(u[p.len() as int].ty == (p + close)[p.len() as int]);
    assert(t.skip(1).skip(1) =~= u);
    assert(v.skip(1) =~= x);
    assert(u.skip((p + close).len() as int) =~= x);
    assert(x[b.len() as int + 2].ty == inner[b.len() as int + 2]);
    assert(y[0] == x[b.len() as int + 2]);
    assert(y.skip(1) =~= t.skip(p.len() as int + b.len() as int + 6));
}

/// A body in braces.
proof fn lemma_block(
    c: Source,
    t: Seq<TokenView>,
    body: Seq<FnStmtView>,
    f: spec_fn(Seq<char>) -> TemplateView,
)
    requires
        spells_texts(f),
        starts(
            t,
            seq![TypeView::LBrace] + (body_words(body, f) + seq![
                TypeView::RBrace,
                TypeView::Semicolon,
            ]),
        ),
    ensures
        starts(
            t,
            (seq![TypeView::LBrace] + body_words(body, f)) + seq![
                TypeView::RBrace,
                TypeView::Semicolon,
            ],
        ),
        forall|open: Seq<char>, close: Seq<char>|
            #[trigger] block(c, t, open, close) == (
                Ok::<Seq<FnStmtView>, Failure>(body),
                t.skip(body_words(body, f).len() as int + 2),
            ),
    decreases body, 1int,
{
    let b = body_words(body, f);
    let brace = seq![TypeView::LBrace];
    let end = seq![TypeView::RBrace, TypeView::Semicolon];
    assert(brace + (b + end) =~= (brace + b) + end);
    lemma_starts_join(t, brace, b + end);
    assert(t[0].ty == brace[0]);
    let u = t.skip(1);
    lemma_starts_join(u, b, end);
    lemma_statements(c, u, body, f);
    let v = u.skip(b.len() as int);
    assert(v[0].ty == end[0]);
    assert(v.skip(1) =~= t.skip(b.len() as int + 2));
}

#[verifier::rlimit(40)]
proof fn lemma_statements(
    c: Source,
    t: Seq<TokenView>,
    body: Seq<FnStmtView>,
    f: spec_fn(Seq<char>) -> TemplateView,
)
    requires
        spells_texts(f),
        starts(t, body_words(body, f) + seq![TypeView::RBrace, TypeView::Semicolon]),
    ensures
        statements(c, t) == (
            Ok::<Seq<FnStmtView>, Failure>(body),
            t.skip(body_words(body, f).len() as int),
        ),
    decreases body, 0int,
{
    let end = seq![TypeView::RBrace, TypeView::Semicolon];
    if body.len() == 0 {
        assert(body_words(body, f) + end =~= end);
        assert(t[0].ty == end[0]);
        assert(t.skip(0) =~= t);
        assert(body =~= Seq::<FnStmtView>::empty());
    } else {
        let rest = body.skip(1);
        lemma_body_first(body, f);
        let w = stmt_words(body[0], f);
        let more = body_words(rest, f);
        assert(w + more + end =~= w + (more + end));
        lemma_starts_join(t, w, more + end);
        lemma_stmt_opens(body[0], f);
        assert(t[0].ty == w[0]);
        assert(decreases_to!(body => body[0]));
        law_a_statement_is_read_back(c, t, body[0], f);
        let u = t.skip(w.len() as int);
        assert(decreases_to!(body => rest)) by {
            assert(rest =~= body.subrange(1, body.len() as int));
        }
        lemma_statements(c, u, rest, f);
        assert(u.skip(more.len() as int) =~= t.skip(body_words(body, f).len() as int));
        assert(seq![body[0]] + rest =~= body);
    }
}

#[verifier::rlimit(40)]
proof fn lemma_switch(
    c: Source,
    t: Seq<TokenView>,
    subject: TemplateView,
    arms: Seq<ArmView>,
    f: spec_fn(Seq<char>) -> TemplateView,
)
    requires
        spells_texts(f),
        starts(t, stmt_words(FnStmtView::Switch { subject, arms }, f)),
    ensures
        switch_block(c, t) == (
            Ok::<FnStmtView, Failure>(FnStmtView::Switch { subject, arms }),
            t.skip(stmt_words(FnStmtView::Switch { subject, arms }, f).len() as int),
        ),
    decreases arms, 1int,
{
    let s = FnStmtView::Switch { subject, arms };
    let w = stmt_words(s, f);
    let head = seq![TypeView::Switch, TypeView::Template(subject), TypeView::LBrace];
    let a = arms_words(arms, f);
    let end = seq![TypeView::RBrace, TypeView::Semicolon];
    lemma_starts_join(t, head, a + end);
    assert(t[0].ty == head[0] && t[1].ty == head[1] && t[2].ty == head[2]);
    assert(t.skip(1).skip(1) =~= t.skip(2));
    assert(t.skip(2).skip(1) =~= t.skip(3));
    let u = t.skip(3);
    lemma_arms(c, u, arms, f);
    lemma_starts_join(u, a, end);
    let v = u.skip(a.len() as int);
    assert(v[0].ty == end[0] && v[1].ty == end[1]);
    assert(v.skip(1)[0] == v[1]);
    assert(v.skip(1).skip(1) =~= t.skip(w.len() as int));
}

#[verifier::rlimit(40)]
proof fn lemma_arms(
    c: Source,
    t: Seq<TokenView>,
    arms: Seq<ArmView>,
    f: spec_fn(Seq<char>) -> TemplateView,
)
    requires
        spells_texts(f),
        starts(t, arms_words(arms, f) + seq![TypeView::RBrace, TypeView::Semicolon]),
    ensures
        switch_arms(c, t) == (
            Ok::<Seq<ArmView>, Failure>(arms),
            t.skip(arms_words(arms, f).len() as int),
        ),
    decreases arms, 0int,
{
    let end = seq![TypeView::RBrace, TypeView::Semicolon];
    if arms.len() == 0 {
        assert(arms_words(arms, f) + end =~= end);
        assert(t[0].ty == end[0]);
        assert(t.skip(0) =~= t);
        assert(arms =~= Seq::<ArmView>::empty());
    } else {
        let arm = arms[0];
        let others = arms.skip(1);
        let w = arm_words(arm, f);
        let more = arms_words(others, f);
        assert(starts(t, w + (more + end))) by {
            lemma_arms_first(arms, f);
            assert(w + more + end =~= w + (more + end));
        }
        let n = arms_words(arms, f).len();
        assert(n == w.len() + more.len()) by {
            lemma_arms_first(arms, f);
        }
        lemma_starts_join(t, w, more + end);
        assert(w.len() >= 5 && w[0] == TypeView::Case);
        assert(t[0].ty == w[0]);
        assert(decreases_to!(arms => arms[0]));
        lemma_arm(c, t, arm, f);
        let u = t.skip(w.len() as int);
        assert(u.len() < t.len());
        assert(decreases_to!(arms => others)) by {
            assert(others =~= arms.subrange(1, arms.len() as int));
        }
        lemma_arms(c, u, others, f);
        let v = t.skip(n as int);
        assert(u.skip(more.len() as int) =~= v);
        assert(seq![arm] + others =~= arms);
        assert(switch_arms(c, u) == (Ok::<Seq<ArmView>, Failure>(others), v));
        assert(switch_arm(c, t) == (Ok::<ArmView, Failure>(arm), u));
    }
}

#[verifier::rlimit(40)]
proof fn lemma_arm(
    c: Source,
    t: Seq<TokenView>,
    arm: ArmView,
    f: spec_fn(Seq<char>) -> TemplateView,
)
    requires
        spells_texts(f),
        starts(t, arm_words(arm, f)),
    ensures
        switch_arm(c, t) == (
            Ok::<ArmView, Failure>(arm),
            t.skip(arm_words(arm, f).len() as int),
        ),
    decreases arm, 0int,
{
    let word = pattern_word(arm.pattern, f);
    let b = body_words(arm.body, f);
    lemma_arm_tokens(t, word, b);
    assert(arm_pattern(c, t.skip(1)) == (
        Ok::<ArmPatternView, Failure>(arm.pattern),
        t.skip(2),
    )) by {
        match arm.pattern {
            ArmPatternView::Lit(s) => {
                assert(f(s).parts == seq![PartView::Lit(s)]);
            },
            ArmPatternView::Default => {},
        }
    }
    let x = t.skip(2);
    let y = x.skip(b.len() as int + 2);
    lemma_block(c, x, arm.body, f);
    assert(rest(t) == t.skip(1));
    assert(block(c, x, "after case pattern"@, "to close case arm body"@) == (
        Ok::<Seq<FnStmtView>, Failure>(arm.body),
        y,
    ));
    assert(skip_semicolon(c, y) == y.skip(1));
}

/// The tokens of an arm.
proof fn lemma_arm_tokens(t: Seq<TokenView>, word: TypeView, b: Seq<TypeView>)
    requires
        starts(
            t,
            seq![TypeView::Case, word, TypeView::LBrace] + (b + seq![
                TypeView::RBrace,
                TypeView::Semicolon,
            ]),
        ),
    ensures
        ({
            let x = t.skip(2);
            let y = x.skip(b.len() as int + 2);
            &&& t.len() >= b.len() + 5
            &&& t[0].ty == TypeView::Case
            &&& t.skip(1)[0].ty == word
            &&& t.skip(1).skip(1) == x
            &&& starts(
                x,
                seq![TypeView::LBrace] + (b + seq![TypeView::RBrace, TypeView::Semicolon]),
            )
            &&& y.len() > 0
            &&& y[0].ty == TypeView::Semicolon
            &&& y.skip(1) == t.skip(b.len() as int + 5)
        }),
{
    let head = seq![TypeView::Case, word];
    let end = seq![TypeView::RBrace, TypeView::Semicolon];
    let inner = seq![TypeView::LBrace] + (b + end);
    let x = t.skip(2);
    let y = x.skip(b.len() as int + 2);
    assert(seq![TypeView::Case, word, TypeView::LBrace] + (b + end) =~= head + inner);
    lemma_starts_join(t, head, inner);
    assert(t[0].ty == head[0] && t[1].ty == head[1]);
    assert(t.skip(1)[0] == t[1]);
    assert(t.skip(1).skip(1) =~= x);
    assert(x[b.len() as int + 2].ty == inner[b.len() as int + 2]);
    assert(y[0] == x[b.len() as int + 2]);
    assert(y.skip(1) =~= t.skip(b.len() as int + 5));
}

// ── Declarations ─────────────────────────────────────────────────────────────

/// Whether two declarations say the same, wherever they stand.
pub open spec fn says_the_same(a: StmtView, b: StmtView) -> bool {
    match (a, b) {
        (StmtView::Var { name, value, .. }, StmtView::Var { name: n, value: v, .. }) => name == n
            && value == v,
        (StmtView::Fn { name, body, .. }, StmtView::Fn { name: n, body: b, .. }) => name == n
            && body == b,
        (StmtView::Field { key, value, .. }, StmtView::Field { key: k, value: v, .. }) => key == k
            && value == v,
        _ => false,
    }
}

pub open spec fn say_the_same(a: Seq<StmtView>, b: Seq<StmtView>) -> bool {
    a.len() == b.len() && forall|i: int| 0 <= i < a.len() ==> says_the_same(#[trigger] a[i], b[i])
}

/// The word that names a field.
pub open spec fn field_word(key: ProjectField) -> TypeView {
    match key {
        ProjectField::Url => TypeView::Ident("url"@),
        ProjectField::Dir => TypeView::Ident("dir"@),
        ProjectField::Branch => TypeView::Ident("branch"@),
        _ => TypeView::Sync,
    }
}

/// The words of a declaration in a project: a variable, a function or a field.
pub open spec fn item_words(item: StmtView, f: spec_fn(Seq<char>) -> TemplateView) -> Seq<TypeView> {
    match item {
        StmtView::Var { name, value, .. } => seq![
            TypeView::Var,
            TypeView::Ident(name),
            TypeView::Assign,
            TypeView::Template(value),
            TypeView::Semicolon,
        ],
        StmtView::Fn { name, body, .. } => seq![TypeView::Fn, TypeView::Ident(name)] + (seq![
            TypeView::LBrace,
        ] + (body_words(body, f) + seq![TypeView::RBrace, TypeView::Semicolon])),
        StmtView::Field { key, value, .. } => seq![
            field_word(key),
            TypeView::Assign,
            TypeView::Template(value),
            TypeView::Semicolon,
        ],
        _ => Seq::empty(),
    }
}

pub open spec fn items_words(items: Seq<StmtView>, f: spec_fn(Seq<char>) -> TemplateView) -> Seq<
    TypeView,
>
    decreases items.len(),
{
    if items.len() == 0 {
        Seq::empty()
    } else {
        item_words(items[0], f) + items_words(items.skip(1), f)
    }
}

/// A setting is read back with its value: `shell = value;`, `timeout = value;`.
pub proof fn law_settings_are_read_back(c: Source, t: Seq<TokenView>, word: TypeView, value: TemplateView)
    requires
        word == TypeView::Shell || word == TypeView::Timeout,
        starts(t, seq![word, TypeView::Assign, TypeView::Template(value), TypeView::Semicolon]),
    ensures
        ({
            let (offset, len, source_name) = (t[0].offset, t[0].len, c.name);
            declaration(c, t) == (
                Ok::<StmtView, Failure>(
                    if word == TypeView::Shell {
                        StmtView::Shell { value, offset, len, source_name }
                    } else {
                        StmtView::Timeout { value, offset, len, source_name }
                    },
                ),
                t.skip(4),
            )
        }),
{
    reveal(declaration);
    let w = seq![word, TypeView::Assign, TypeView::Template(value), TypeView::Semicolon];
    assert(t[0].ty == w[0] && t[1].ty == w[1] && t[2].ty == w[2] && t[3].ty == w[3]);
    assert(t.skip(1).skip(1) =~= t.skip(2));
    assert(t.skip(2).skip(1) =~= t.skip(3));
    assert(t.skip(3).skip(1) =~= t.skip(4));
}

/// A variable is read back with its name and its value, where it is declared.
pub proof fn law_a_variable_is_read_back(
    c: Source,
    t: Seq<TokenView>,
    name: Seq<char>,
    value: TemplateView,
)
    requires
        starts(
            t,
            seq![
                TypeView::Var,
                TypeView::Ident(name),
                TypeView::Assign,
                TypeView::Template(value),
                TypeView::Semicolon,
            ],
        ),
    ensures
        var_stmt(c, t) == (
            Ok::<StmtView, Failure>(
                StmtView::Var { name, value, offset: t[0].offset, len: t[0].len },
            ),
            t.skip(5),
        ),
        declaration(c, t) == var_stmt(c, t),
{
    reveal(declaration);
    let w = seq![
        TypeView::Var,
        TypeView::Ident(name),
        TypeView::Assign,
        TypeView::Template(value),
        TypeView::Semicolon,
    ];
    assert(t[0].ty == w[0] && t[1].ty == w[1] && t[2].ty == w[2] && t[3].ty == w[3] && t[4].ty
        == w[4]);
    assert(t.skip(1).skip(1) =~= t.skip(2));
    assert(t.skip(2).skip(1) =~= t.skip(3));
    assert(t.skip(3).skip(1) =~= t.skip(4));
    assert(t.skip(4).skip(1) =~= t.skip(5));
}

/// A function is read back with its name and its statements.
pub proof fn law_a_function_is_read_back(
    c: Source,
    t: Seq<TokenView>,
    name: Seq<char>,
    body: Seq<FnStmtView>,
    f: spec_fn(Seq<char>) -> TemplateView,
)
    requires
        spells_texts(f),
        starts(
            t,
            seq![TypeView::Fn, TypeView::Ident(name)] + (seq![TypeView::LBrace] + (body_words(
                body,
                f,
            ) + seq![TypeView::RBrace, TypeView::Semicolon])),
        ),
    ensures
        fn_stmt(c, t) == (
            Ok::<StmtView, Failure>(
                StmtView::Fn { name, body, offset: t[0].offset, len: t[0].len },
            ),
            t.skip(body_words(body, f).len() as int + 5),
        ),
        declaration(c, t) == fn_stmt(c, t),
{
    reveal(declaration);
    let head = seq![TypeView::Fn, TypeView::Ident(name)];
    let b = body_words(body, f);
    let inner = seq![TypeView::LBrace] + (b + seq![TypeView::RBrace, TypeView::Semicolon]);
    lemma_starts_join(t, head, inner);
    assert(t[0].ty == head[0] && t[1].ty == head[1]);
    assert(t.skip(1).skip(1) =~= t.skip(2));
    let x = t.skip(2);
    let y = x.skip(b.len() as int + 2);
    lemma_block(c, x, body, f);
    assert(block(c, x, "after function name"@, "to close function body"@) == (
        Ok::<Seq<FnStmtView>, Failure>(body),
        y,
    ));
    assert(x[b.len() as int + 2].ty == inner[b.len() as int + 2]);
    assert(y[0] == x[b.len() as int + 2]);
    assert(y.skip(1) =~= t.skip(b.len() as int + 5));
}

/// A run is read back with its name and its chains.
pub proof fn law_a_run_is_read_back(
    c: Source,
    t: Seq<TokenView>,
    name: Seq<char>,
    chains: Seq<Seq<CallView>>,
    closed: bool,
)
    requires
        forall|i: int| 0 <= i < chains.len() ==> (#[trigger] chains[i]).len() > 0,
        starts(
            t,
            seq![TypeView::Run, TypeView::Ident(name), TypeView::LBrace] + (chains_words(
                chains,
                closed,
            ) + seq![TypeView::RBrace]),
        ),
    ensures
        declaration(c, t).0 matches Ok(StmtView::Run { name: n, calls, offset, .. }) && n == name
            && calls == chains && offset == t[0].offset,
{
    reveal(declaration);
    let head = seq![TypeView::Run, TypeView::Ident(name), TypeView::LBrace];
    let w = chains_words(chains, closed);
    lemma_starts_join(t, head, w + seq![TypeView::RBrace]);
    assert(t[0].ty == head[0] && t[1].ty == head[1] && t[2].ty == head[2]);
    assert(t.skip(1).skip(1) =~= t.skip(2));
    assert(t.skip(2).skip(1) =~= t.skip(3));
    let u = t.skip(3);
    law_chains_are_read_back(c, u, chains, closed);
    lemma_starts_join(u, w, seq![TypeView::RBrace]);
    assert(u.skip(w.len() as int)[0].ty == seq![TypeView::RBrace][0]);
}

/// Whether items are variables and functions.
pub open spec fn are_declared(items: Seq<StmtView>) -> bool {
    forall|i: int| 0 <= i < items.len() ==> (#[trigger] items[i]) is Var || items[i] is Fn
}

#[verifier::rlimit(40)]
proof fn lemma_items(
    c: Source,
    t: Seq<TokenView>,
    items: Seq<StmtView>,
    f: spec_fn(Seq<char>) -> TemplateView,
) -> (r: Seq<StmtView>)
    requires
        spells_texts(f),
        are_declared(items),
        starts(t, items_words(items, f) + seq![TypeView::RBrace]),
    ensures
        project_items(c, t) == (
            Ok::<Seq<StmtView>, Failure>(r),
            t.skip(items_words(items, f).len() as int),
        ),
        say_the_same(r, items),
    decreases items.len(),
{
    let close = seq![TypeView::RBrace];
    if items.len() == 0 {
        assert(items_words(items, f) + close =~= close);
        assert(t[0].ty == close[0]);
        assert(t.skip(0) =~= t);
        Seq::empty()
    } else {
        let others = items.skip(1);
        let w = item_words(items[0], f);
        let more = items_words(others, f);
        assert(w + more + close =~= w + (more + close));
        lemma_starts_join(t, w, more + close);
        assert(items[0] is Var || items[0] is Fn);
        let u = t.skip(w.len() as int);
        let first = lemma_item(c, t, items[0], f);
        assert forall|i: int| 0 <= i < others.len() implies (#[trigger] others[i]) is Var
            || others[i] is Fn by {
            assert(others[i] == items[i + 1]);
        }
        let rest_read = lemma_items(c, u, others, f);
        assert(u.skip(more.len() as int) =~= t.skip(items_words(items, f).len() as int));
        let r = seq![first] + rest_read;
        assert forall|i: int| 0 <= i < r.len() implies says_the_same(#[trigger] r[i], items[i]) by {
            if i > 0 {
                assert(r[i] == rest_read[i - 1]);
                assert(others[i - 1] == items[i]);
            }
        }
        r
    }
}

proof fn lemma_item(
    c: Source,
    t: Seq<TokenView>,
    item: StmtView,
    f: spec_fn(Seq<char>) -> TemplateView,
) -> (r: StmtView)
    requires
        spells_texts(f),
        item is Var || item is Fn,
        starts(t, item_words(item, f)),
    ensures
        project_item(c, t) == (
            Ok::<StmtView, Failure>(r),
            t.skip(item_words(item, f).len() as int),
        ),
        says_the_same(r, item),
        item_words(item, f).len() > 0,
        t.len() > 0,
        t[0].ty != TypeView::RBrace,
{
    let w = item_words(item, f);
    assert(t[0].ty == w[0]);
    match item {
        StmtView::Var { name, value, .. } => {
            law_a_variable_is_read_back(c, t, name, value);
            StmtView::Var { name, value, offset: t[0].offset, len: t[0].len }
        },
        StmtView::Fn { name, body, .. } => {
            law_a_function_is_read_back(c, t, name, body, f);
            StmtView::Fn { name, body, offset: t[0].offset, len: t[0].len }
        },
        _ => item,
    }
}

/// A project is read back with its name and its declarations, in order.
#[verifier::rlimit(40)]
pub proof fn law_a_project_is_read_back(
    c: Source,
    t: Seq<TokenView>,
    name: Seq<char>,
    items: Seq<StmtView>,
    f: spec_fn(Seq<char>) -> TemplateView,
)
    requires
        spells_texts(f),
        are_declared(items),
        starts(
            t,
            seq![TypeView::Pr, TypeView::Ident(name), TypeView::LBrace] + (items_words(items, f)
                + seq![TypeView::RBrace]),
        ),
    ensures
        declaration(c, t).0 matches Ok(StmtView::Project { name: n, fields, body }) && n == name
            && fields.len() == 0 && say_the_same(body, items),
{
    reveal(declaration);
    let head = seq![TypeView::Pr, TypeView::Ident(name), TypeView::LBrace];
    let close = seq![TypeView::RBrace];
    let w = items_words(items, f);
    lemma_starts_join(t, head, w + close);
    assert(t[0].ty == head[0] && t[1].ty == head[1] && t[2].ty == head[2]);
    assert(t.skip(1).skip(1) =~= t.skip(2));
    assert(t.skip(2).skip(1) =~= t.skip(3));
    let u = t.skip(3);
    lemma_starts_join(u, w, close);
    assert(u.skip(w.len() as int)[0].ty == close[0]);
    if items.len() > 0 {
        let first = item_words(items[0], f);
        assert(items[0] is Var || items[0] is Fn);
        assert(w == first + items_words(items.skip(1), f));
        assert(w[0] == first[0]);
        assert(u[0].ty == w[0]);
    } else {
        assert(u.skip(0) =~= u);
    }
    let r = lemma_items(c, u, items, f);
}

/// Whether items are fields, each at most once, of those that have a name.
pub open spec fn are_fields(items: Seq<StmtView>) -> bool {
    &&& forall|i: int|
        0 <= i < items.len() ==> ((#[trigger] items[i]) matches StmtView::Field { key, .. } && key
            != ProjectField::Include)
    &&& forall|i: int, j: int|
        0 <= i < j < items.len() ==> (#[trigger] items[i])->Field_key != (
        #[trigger] items[j])->Field_key
}

proof fn lemma_field_words()
    ensures
        ProjectField::named("url"@) == Some(ProjectField::Url),
        ProjectField::named("dir"@) == Some(ProjectField::Dir),
        ProjectField::named("branch"@) == Some(ProjectField::Branch),
{
    reveal_strlit("url");
    reveal_strlit("dir");
    reveal_strlit("branch");
    reveal_strlit("sync");
    assert("url"@[0] == 'u' && "dir"@[0] == 'd' && "branch"@[0] == 'b' && "sync"@[0] == 's');
}

proof fn lemma_field(
    c: Source,
    t: Seq<TokenView>,
    key: ProjectField,
    value: TemplateView,
    seen: Seq<ProjectField>,
)
    requires
        key != ProjectField::Include,
        !seen.contains(key),
        starts(
            t,
            seq![
                field_word(key),
                TypeView::Assign,
                TypeView::Template(value),
                TypeView::Semicolon,
            ],
        ),
    ensures
        ({
            let (r, u) = field_stmt(c, t, seen);
            &&& u == t.skip(4)
            &&& r matches Ok((k, StmtView::Field { key: named, value: v, .. })) && k == key
                && named == key && v == value
        }),
{
    lemma_field_words();
    let w = seq![
        field_word(key),
        TypeView::Assign,
        TypeView::Template(value),
        TypeView::Semicolon,
    ];
    assert(t[0].ty == w[0] && t[1].ty == w[1] && t[2].ty == w[2] && t[3].ty == w[3]);
    assert(t.skip(1).skip(1) =~= t.skip(2));
    assert(t.skip(2).skip(1) =~= t.skip(3));
    assert(t.skip(3).skip(1) =~= t.skip(4));
}

proof fn lemma_fields(
    c: Source,
    t: Seq<TokenView>,
    items: Seq<StmtView>,
    seen: Seq<ProjectField>,
    f: spec_fn(Seq<char>) -> TemplateView,
) -> (r: Seq<StmtView>)
    requires
        are_fields(items),
        forall|i: int|
            0 <= i < items.len() ==> !seen.contains((#[trigger] items[i])->Field_key),
        starts(t, items_words(items, f) + seq![TypeView::RBrace]),
    ensures
        fields(c, t, seen) == (
            Ok::<Seq<StmtView>, Failure>(r),
            t.skip(items_words(items, f).len() as int),
        ),
        say_the_same(r, items),
    decreases items.len(),
{
    let close = seq![TypeView::RBrace];
    if items.len() == 0 {
        assert(items_words(items, f) + close =~= close);
        assert(t[0].ty == close[0]);
        assert(t.skip(0) =~= t);
        Seq::empty()
    } else {
        let others = items.skip(1);
        let w = item_words(items[0], f);
        let more = items_words(others, f);
        assert(w + more + close =~= w + (more + close));
        lemma_starts_join(t, w, more + close);
        let key = items[0]->Field_key;
        assert(items[0] is Field);
        assert(t[0].ty == w[0]);
        let u = t.skip(w.len() as int);
        lemma_field(c, t, key, items[0]->Field_value, seen);
        let now = seen.push(key);
        assert forall|i: int| 0 <= i < others.len() implies !now.contains(
            (#[trigger] others[i])->Field_key,
        ) by {
            let k = others[i]->Field_key;
            assert(others[i] == items[i + 1]);
            assert(items[0]->Field_key != items[i + 1]->Field_key);
            assert(!seen.contains(items[i + 1]->Field_key));
            if now.contains(k) {
                let j = choose|j: int| 0 <= j < now.len() && now[j] == k;
                if j < seen.len() {
                    assert(seen[j] == k);
                }
            }
        }
        assert(are_fields(others)) by {
            assert forall|i: int| 0 <= i < others.len() implies ((#[trigger] others[i]) matches
                StmtView::Field { key, .. } && key != ProjectField::Include) by {
                assert(others[i] == items[i + 1]);
            }
            assert forall|i: int, j: int| 0 <= i < j < others.len() implies (
            #[trigger] others[i])->Field_key != (#[trigger] others[j])->Field_key by {
                assert(others[i] == items[i + 1] && others[j] == items[j + 1]);
            }
        }
        let rest_read = lemma_fields(c, u, others, now, f);
        assert(u.skip(more.len() as int) =~= t.skip(items_words(items, f).len() as int));
        let first = field_stmt(c, t, seen).0->Ok_0.1;
        let r = seq![first] + rest_read;
        assert forall|i: int| 0 <= i < r.len() implies says_the_same(#[trigger] r[i], items[i]) by {
            if i > 0 {
                assert(r[i] == rest_read[i - 1]);
                assert(others[i - 1] == items[i]);
            }
        }
        r
    }
}

/// A repository is read back with its name and its fields, in order.
#[verifier::rlimit(40)]
pub proof fn law_a_repository_is_read_back(
    c: Source,
    t: Seq<TokenView>,
    name: Seq<char>,
    items: Seq<StmtView>,
    f: spec_fn(Seq<char>) -> TemplateView,
)
    requires
        are_fields(items),
        items.len() > 0,
        starts(
            t,
            seq![TypeView::Sync, TypeView::Ident(name), TypeView::LBrace] + (items_words(items, f)
                + seq![TypeView::RBrace]),
        ),
    ensures
        declaration(c, t).0 matches Ok(StmtView::Project { name: n, fields, body }) && n == name
            && body.len() == 0 && say_the_same(fields, items),
{
    reveal(declaration);
    let head = seq![TypeView::Sync, TypeView::Ident(name), TypeView::LBrace];
    let close = seq![TypeView::RBrace];
    let w = items_words(items, f);
    lemma_starts_join(t, head, w + close);
    assert(t[0].ty == head[0] && t[1].ty == head[1] && t[2].ty == head[2]);
    assert(t.skip(1).skip(1) =~= t.skip(2));
    assert(t.skip(2).skip(1) =~= t.skip(3));
    let u = t.skip(3);
    lemma_starts_join(u, w, close);
    assert(u.skip(w.len() as int)[0].ty == close[0]);
    let first = item_words(items[0], f);
    assert(items[0] is Field);
    assert(w == first + items_words(items.skip(1), f));
    assert(w[0] == first[0]);
    assert(u[0].ty == w[0]);
    lemma_field_words();
    let r = lemma_fields(c, u, items, Seq::empty(), f);
}

/// An import is read back with its path, and the items of a file follow one
/// another as they are written; at the end of the text the file ends.
pub proof fn law_a_file_is_read_in_order(c: Source, t: Seq<TokenView>, path: TemplateView)
    ensures
        starts(t, seq![TypeView::Import, TypeView::Template(path), TypeView::Semicolon]) ==> file(
            c,
            t,
        ) == match file(c, t.skip(3)) {
            Ok(more) => Ok(seq![TopLevelView::Import(path)] + more),
            Err(e) => Err(e),
        },
        t.len() > 0 && t[0].ty != TypeView::Eof && t[0].ty != TypeView::Import ==> (match declaration(
            c,
            t,
        ) {
            (Err(e), _) => file(c, t) == Err::<Seq<TopLevelView>, Failure>(e),
            (Ok(s), u) => u.len() < t.len() ==> file(c, t) == match file(c, u) {
                Ok(more) => Ok(seq![TopLevelView::Stmt(s)] + more),
                Err(e) => Err(e),
            },
        }),
        t.len() == 0 && c.eof.ty == TypeView::Eof ==> file(c, t) == Ok::<
            Seq<TopLevelView>,
            Failure,
        >(Seq::empty()),
{
    reveal(item);
    let w = seq![TypeView::Import, TypeView::Template(path), TypeView::Semicolon];
    if starts(t, w) {
        assert(t[0].ty == w[0]);
        lemma_simple(c, t, w);
        assert(closed_template(c, t.skip(1), "after import path"@) == (
            Ok::<TemplateView, Failure>(path),
            t.skip(3),
        ));
    }
}

// ── What is read ─────────────────────────────────────────────────────────────

/// All calls of chains, in order.
pub open spec fn all_calls(chains: Seq<Seq<CallView>>) -> Seq<CallView>
    decreases chains.len(),
{
    if chains.len() == 0 {
        Seq::empty()
    } else {
        chains[0] + all_calls(chains.skip(1))
    }
}

/// Whether calls stand in tokens, one after another, with a separator after each:
/// a `=>` or a `;`, or, after the last, the closing brace.
pub open spec fn calls_stand(t: Seq<TokenView>, calls: Seq<CallView>) -> bool
    decreases calls.len(),
{
    calls.len() > 0 ==> {
        &&& t.len() > 3
        &&& starts(t, call_words(calls[0]))
        &&& t[3].ty == TypeView::Arrow || t[3].ty == TypeView::Semicolon || (calls.len() == 1
            && t[3].ty == TypeView::RBrace)
        &&& calls_stand(t.skip(4), calls.skip(1))
    }
}

proof fn lemma_calls_of(c: Source, t: Seq<TokenView>, done: Seq<CallView>)
    requires
        c.eof.ty == TypeView::Eof,
        run_chains(c, t, done).0 is Ok,
    ensures
        ({
            let all = all_calls(run_chains(c, t, done).0->Ok_0);
            &&& all.len() >= done.len()
            &&& all.take(done.len() as int) == done
            &&& calls_stand(t, all.skip(done.len() as int))
        }),
    decreases t.len(),
{
    let chains = run_chains(c, t, done).0->Ok_0;
    let all = all_calls(chains);
    let n = done.len() as int;
    if t.len() > 0 && t[0].ty == TypeView::RBrace {
        if n > 0 {
            assert(chains =~= seq![done]);
            assert(chains.skip(1) =~= Seq::<Seq<CallView>>::empty());
            reveal_with_fuel(all_calls, 2);
            assert(done + Seq::<CallView>::empty() =~= done);
        } else {
            assert(all =~= done);
        }
        assert(all =~= done);
        assert(all.take(n) =~= done);
        assert(all.skip(n) =~= Seq::<CallView>::empty());
    } else {
        let call = run_call(c, t).0->Ok_0;
        let u = run_call(c, t).1;
        lemma_call_of(c, t);
        assert(u == t.skip(3));
        assert(t.len() > 3) by {
            if t.len() == 3 {
                assert(u =~= Seq::<TokenView>::empty());
            }
        }
        assert(u[0] == t[3]);
        assert(u.skip(1) =~= t.skip(4));
        let more = done.push(call);
        let tail = all.skip(n);
        if t[3].ty == TypeView::Arrow {
            lemma_calls_of(c, t.skip(4), more);
            let inner = all.skip(n + 1);
            assert(all.take(n) =~= all.take(n + 1).take(n));
            assert(more.take(n) =~= done);
            assert(all[n] == all.take(n + 1)[n]);
            assert(tail[0] == call);
            assert(tail.skip(1) =~= inner);
        } else if t[3].ty == TypeView::Semicolon {
            lemma_calls_of(c, t.skip(4), Seq::empty());
            let rest_chains = run_chains(c, t.skip(4), Seq::empty()).0->Ok_0;
            assert(chains =~= seq![more] + rest_chains);
            assert(chains.skip(1) =~= rest_chains);
            let inner = all_calls(rest_chains);
            assert(all == more + inner);
            assert(all.take(n) =~= done);
            assert(tail[0] == call);
            assert(tail.skip(1) =~= inner);
            assert(inner.skip(0) =~= inner);
        } else {
            assert(chains =~= seq![more]);
            assert(chains.skip(1) =~= Seq::<Seq<CallView>>::empty());
            reveal_with_fuel(all_calls, 2);
            assert(all =~= more);
            assert(all.take(n) =~= done);
            assert(tail =~= seq![call]);
            assert(tail.skip(1) =~= Seq::<CallView>::empty());
        }
        assert(calls_stand(t.skip(4), tail.skip(1)));
        assert(tail.len() > 0);
        assert(starts(t, call_words(tail[0])));
        assert(calls_stand(t, tail));
    }
}

proof fn lemma_call_of(c: Source, t: Seq<TokenView>)
    requires
        c.eof.ty == TypeView::Eof,
        run_call(c, t).0 is Ok,
    ensures
        t.len() >= 3,
        starts(t, call_words(run_call(c, t).0->Ok_0)),
        run_call(c, t).1 == t.skip(3),
{
    let call = run_call(c, t).0->Ok_0;
    let w = call_words(call);
    let u = t.skip(1);
    let v = t.skip(2);
    if t.len() > 1 {
        assert(u[0] == t[1]);
        assert(u.skip(1) =~= v);
    }
    if t.len() > 2 {
        assert(v[0] == t[2]);
        assert(v.skip(1) =~= t.skip(3));
        assert(t[0].ty == w[0] && t[1].ty == w[1] && t[2].ty == w[2]);
    }
}

/// Nothing is read into a run but what stands in it: its calls, in order, each
/// with a separator after it.
pub proof fn law_a_run_holds_the_calls_that_stand_in_it(c: Source, t: Seq<TokenView>)
    requires
        c.eof.ty == TypeView::Eof,
        run_chains(c, t, Seq::empty()).0 is Ok,
    ensures
        calls_stand(t, all_calls(run_chains(c, t, Seq::empty()).0->Ok_0)),
{
    lemma_calls_of(c, t, Seq::empty());
    let all = all_calls(run_chains(c, t, Seq::empty()).0->Ok_0);
    assert(all.skip(0) =~= all);
}

} // verus!
