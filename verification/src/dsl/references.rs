//! What statements refer to, and what moving and renaming do to it.
use vstd::prelude::*;
use crate::dsl::fnstmt::{
    arm_uses, arms_moved, arms_renamed, body_moved, body_renamed, body_uses, pair_uses,
    pairs_moved, pairs_renamed, stmt_moved, stmt_renamed, stmt_uses, CaseArmView, FnStmtView,
};
use crate::dsl::syntax::{
    part_uses, parts_renamed, renamed, CasePatternView, EnvPairView, ExprView, PartView,
    VarUseView,
};

verus! {

// ── Uses ─────────────────────────────────────────────────────────────────────

/// A text in backticks refers to the variables among its pieces, each once for
/// each time that it stands there, in order, at the place of the text.
pub proof fn law_a_text_refers_to_its_variables(
    a: Seq<PartView>,
    b: Seq<PartView>,
    piece: PartView,
    offset: usize,
    len: usize,
    source_name: Seq<char>,
)
    ensures
        part_uses(a + b, offset, len, source_name) == part_uses(a, offset, len, source_name)
            + part_uses(b, offset, len, source_name),
        part_uses(seq![piece], offset, len, source_name) == if piece.is_var {
            seq![
                VarUseView {
                    name: piece.value,
                    namespace: piece.namespace,
                    offset,
                    len,
                    source_name,
                },
            ]
        } else {
            Seq::<VarUseView>::empty()
        },
        (ExprView::BacktickLit { parts: a, offset, len, source_name }).uses() == part_uses(
            a,
            offset,
            len,
            source_name,
        ),
        (CasePatternView::Literal { parts: a, offset, len, source_name }).uses() == part_uses(
            a,
            offset,
            len,
            source_name,
        ),
    decreases b.len(),
{
    let one = seq![piece];
    assert(one.drop_last() =~= Seq::<PartView>::empty());
    assert(one.last() == piece);
    reveal_with_fuel(part_uses, 2);
    if b.len() == 0 {
        assert(a + b =~= a);
        assert(part_uses(a, offset, len, source_name) + part_uses(b, offset, len, source_name)
            =~= part_uses(a, offset, len, source_name));
    } else {
        law_a_text_refers_to_its_variables(a, b.drop_last(), piece, offset, len, source_name);
        assert((a + b).drop_last() =~= a + b.drop_last());
        assert((a + b).last() == b.last());
        assert(part_uses(a + b, offset, len, source_name) =~= part_uses(
            a,
            offset,
            len,
            source_name,
        ) + part_uses(b, offset, len, source_name));
    }
}

/// A reference refers to its variable, once and at its own place; the pattern that
/// fits everything to none.
pub proof fn law_a_reference_refers_to_its_variable(
    name: Seq<char>,
    namespace: Seq<char>,
    offset: usize,
    len: usize,
    source_name: Seq<char>,
)
    ensures
        ({
            let own = seq![VarUseView { name, namespace, offset, len, source_name }];
            &&& (ExprView::VarRef { name, namespace, offset, len, source_name }).uses() == own
            &&& (CasePatternView::VarRef { name, namespace, offset, len, source_name }).uses()
                == own
            &&& CasePatternView::Default.uses().len() == 0
        }),
{
}

/// Statements refer to what each of them refers to, in order: a block to what its
/// values refer to and then to what its body does, a `case` to its condition and
/// then, arm by arm, to the pattern and the body.
pub proof fn law_what_statements_refer_to(
    body: Seq<FnStmtView>,
    last: FnStmtView,
    pairs: Seq<EnvPairView>,
    pair: EnvPairView,
    arms: Seq<CaseArmView>,
    arm: CaseArmView,
)
    ensures
        body_uses(Seq::empty()).len() == 0,
        body_uses(body.push(last)) == body_uses(body) + match last {
            FnStmtView::Log(e) => e.uses(),
            FnStmtView::Exec(e) => e.uses(),
            FnStmtView::Cd(e) => e.uses(),
            FnStmtView::VarDecl { value, .. } => value.uses(),
            FnStmtView::EnvBlock { pairs, body } => pair_uses(pairs) + body_uses(body),
            FnStmtView::Case { condition, scopes } => condition.uses() + arm_uses(scopes),
        },
        stmt_uses(last) == body_uses(seq![last]),
        pair_uses(Seq::empty()).len() == 0,
        pair_uses(pairs.push(pair)) == pair_uses(pairs) + pair.value.uses(),
        arm_uses(Seq::empty()).len() == 0,
        arm_uses(arms.push(arm)) == arm_uses(arms) + arm.pattern.uses() + body_uses(arm.body),
{
    assert(body.push(last).drop_last() =~= body);
    assert(pairs.push(pair).drop_last() =~= pairs);
    assert(arms.push(arm).drop_last() =~= arms);
    let whole = body.push(last);
    assert(whole.last() == last);
    let all = arms.push(arm);
    assert(all.last() == arm);
    assert(body_uses(whole) == body_uses(body) + stmt_uses(last));
    assert(arm_uses(all) == arm_uses(arms) + (arm.pattern.uses() + body_uses(arm.body)));
    assert(arm_uses(arms) + (arm.pattern.uses() + body_uses(arm.body)) =~= arm_uses(arms)
        + arm.pattern.uses() + body_uses(arm.body));
    let one = seq![last];
    let none = Seq::<FnStmtView>::empty();
    assert(one.drop_last() =~= none);
    assert(one.last() == last);
    assert(body_uses(none) =~= Seq::<VarUseView>::empty());
    assert(body_uses(one) == body_uses(none) + stmt_uses(last));
    assert(Seq::<VarUseView>::empty() + stmt_uses(last) =~= stmt_uses(last));
}

// ── Moving ───────────────────────────────────────────────────────────────────

/// Whether an expression stands at a place.
pub open spec fn expr_at(e: ExprView, source: Seq<char>, at: usize, length: usize) -> bool {
    match e {
        ExprView::VarRef { offset, len, source_name, .. } => offset == at && len == length
            && source_name == source,
        ExprView::BacktickLit { offset, len, source_name, .. } => offset == at && len == length
            && source_name == source,
    }
}

/// Whether a pattern stands at a place; the one that fits everything has none.
pub open spec fn pattern_at(p: CasePatternView, source: Seq<char>, at: usize, length: usize) -> bool {
    match p {
        CasePatternView::VarRef { offset, len, source_name, .. } => offset == at && len == length
            && source_name == source,
        CasePatternView::Literal { offset, len, source_name, .. } => offset == at && len == length
            && source_name == source,
        CasePatternView::Default => true,
    }
}

/// Whether all that a statement holds stands at a place.
pub open spec fn stmt_at(s: FnStmtView, source: Seq<char>, at: usize, length: usize) -> bool
    decreases s,
{
    match s {
        FnStmtView::Log(e) => expr_at(e, source, at, length),
        FnStmtView::Exec(e) => expr_at(e, source, at, length),
        FnStmtView::Cd(e) => expr_at(e, source, at, length),
        FnStmtView::VarDecl { value, .. } => expr_at(value, source, at, length),
        FnStmtView::EnvBlock { pairs, body } => {
            &&& forall|i: int|
                0 <= i < pairs.len() ==> expr_at(
                    (#[trigger] pairs[i]).value,
                    source,
                    at,
                    length,
                )
            &&& body_at(body, source, at, length)
        },
        FnStmtView::Case { condition, scopes } => {
            &&& expr_at(condition, source, at, length)
            &&& arms_at(scopes, source, at, length)
        },
    }
}

pub open spec fn body_at(body: Seq<FnStmtView>, source: Seq<char>, at: usize, length: usize) -> bool
    decreases body,
{
    forall|i: int| 0 <= i < body.len() ==> stmt_at(#[trigger] body[i], source, at, length)
}

pub open spec fn arms_at(
    arms: Seq<CaseArmView>,
    source: Seq<char>,
    at: usize,
    length: usize,
) -> bool
    decreases arms,
{
    forall|i: int|
        0 <= i < arms.len() ==> pattern_at((#[trigger] arms[i]).pattern, source, at, length)
            && body_at(arms[i].body, source, at, length)
}

/// A statement that is moved to where it stands stays as it is: nothing of it is
/// lost, and nothing but places is touched.
pub proof fn law_moving_in_place_changes_nothing(
    s: FnStmtView,
    source: Seq<char>,
    at: usize,
    length: usize,
)
    requires
        stmt_at(s, source, at, length),
    ensures
        stmt_moved(s, source, at, length) == s,
    decreases s, 0int,
{
    match s {
        FnStmtView::EnvBlock { pairs, body } => {
            let moved = pairs_moved(pairs, source, at, length);
            assert forall|i: int| 0 <= i < pairs.len() implies moved[i] == pairs[i] by {
                assert(expr_at(pairs[i].value, source, at, length));
            }
            assert(moved =~= pairs);
            lemma_body_in_place(body, source, at, length);
        },
        FnStmtView::Case { scopes, .. } => {
            lemma_arms_in_place(scopes, source, at, length);
        },
        _ => {},
    }
}

proof fn lemma_body_in_place(body: Seq<FnStmtView>, source: Seq<char>, at: usize, length: usize)
    requires
        body_at(body, source, at, length),
    ensures
        body_moved(body, source, at, length) == body,
    decreases body, 1int,
{
    let moved = body_moved(body, source, at, length);
    assert forall|i: int| 0 <= i < body.len() implies moved[i] == body[i] by {
        assert(stmt_at(body[i], source, at, length));
        assert(decreases_to!(body => body[i]));
        law_moving_in_place_changes_nothing(body[i], source, at, length);
    }
    assert(moved =~= body);
}

proof fn lemma_arms_in_place(arms: Seq<CaseArmView>, source: Seq<char>, at: usize, length: usize)
    requires
        arms_at(arms, source, at, length),
    ensures
        arms_moved(arms, source, at, length) == arms,
    decreases arms, 1int,
{
    let moved = arms_moved(arms, source, at, length);
    assert forall|i: int| 0 <= i < arms.len() implies moved[i] == arms[i] by {
        assert(pattern_at(arms[i].pattern, source, at, length));
        assert(body_at(arms[i].body, source, at, length));
        assert(decreases_to!(arms => arms[i]));
        lemma_body_in_place(arms[i].body, source, at, length);
    }
    assert(moved =~= arms);
}

/// A statement that is moved stands where it was moved to, with all that it
/// holds.
pub proof fn law_a_moved_statement_stands_there(
    s: FnStmtView,
    source: Seq<char>,
    at: usize,
    length: usize,
)
    ensures
        stmt_at(stmt_moved(s, source, at, length), source, at, length),
    decreases s, 0int,
{
    match s {
        FnStmtView::EnvBlock { body, .. } => {
            lemma_moved_body_stands(body, source, at, length);
        },
        FnStmtView::Case { scopes, .. } => {
            lemma_moved_arms_stand(scopes, source, at, length);
        },
        _ => {},
    }
}

proof fn lemma_moved_body_stands(
    body: Seq<FnStmtView>,
    source: Seq<char>,
    at: usize,
    length: usize,
)
    ensures
        body_at(body_moved(body, source, at, length), source, at, length),
    decreases body, 1int,
{
    let moved = body_moved(body, source, at, length);
    assert forall|i: int| 0 <= i < moved.len() implies stmt_at(
        #[trigger] moved[i],
        source,
        at,
        length,
    ) by {
        assert(decreases_to!(body => body[i]));
        law_a_moved_statement_stands_there(body[i], source, at, length);
        assert(moved[i] == stmt_moved(body[i], source, at, length));
    }
}

proof fn lemma_moved_arms_stand(
    arms: Seq<CaseArmView>,
    source: Seq<char>,
    at: usize,
    length: usize,
)
    ensures
        arms_at(arms_moved(arms, source, at, length), source, at, length),
    decreases arms, 1int,
{
    let moved = arms_moved(arms, source, at, length);
    assert forall|i: int| 0 <= i < moved.len() implies pattern_at(
        (#[trigger] moved[i]).pattern,
        source,
        at,
        length,
    ) && body_at(moved[i].body, source, at, length) by {
        assert(decreases_to!(arms => arms[i]));
        lemma_moved_body_stands(arms[i].body, source, at, length);
        assert(moved[i] == (CaseArmView {
            pattern: arms[i].pattern.moved(source, at, length),
            body: body_moved(arms[i].body, source, at, length),
        }));
    }
}

// ── Renaming ─────────────────────────────────────────────────────────────────

/// Whether references are others with their namespaces renamed: the same
/// variables, at the same places, in the same order.
pub open spec fn uses_renamed<F: Fn(&str, usize, usize, &str) -> String>(
    f: F,
    before: Seq<VarUseView>,
    after: Seq<VarUseView>,
) -> bool {
    &&& before.len() == after.len()
    &&& forall|i: int|
        0 <= i < before.len() ==> {
            let (a, b) = (before[i], #[trigger] after[i]);
            &&& b.name == a.name && b.offset == a.offset && b.len == a.len && b.source_name
                == a.source_name
            &&& renamed(f, a.namespace, a.offset, a.len, a.source_name, b.namespace)
        }
}

proof fn lemma_join<F: Fn(&str, usize, usize, &str) -> String>(
    f: F,
    a: Seq<VarUseView>,
    b: Seq<VarUseView>,
    a2: Seq<VarUseView>,
    b2: Seq<VarUseView>,
)
    requires
        uses_renamed(f, a, a2),
        uses_renamed(f, b, b2),
    ensures
        uses_renamed(f, a + b, a2 + b2),
{
    let (x, y) = (a + b, a2 + b2);
    assert forall|i: int| 0 <= i < x.len() implies ({
        let (p, q) = (x[i], #[trigger] y[i]);
        &&& q.name == p.name && q.offset == p.offset && q.len == p.len && q.source_name
            == p.source_name
        &&& renamed(f, p.namespace, p.offset, p.len, p.source_name, q.namespace)
    }) by {
        if i < a.len() {
            assert(y[i] == a2[i]);
        } else {
            assert(y[i] == b2[i - a.len()]);
        }
    }
}

proof fn lemma_parts<F: Fn(&str, usize, usize, &str) -> String>(
    f: F,
    a: Seq<PartView>,
    b: Seq<PartView>,
    offset: usize,
    len: usize,
    source_name: Seq<char>,
)
    requires
        parts_renamed(f, a, offset, len, source_name, b),
    ensures
        uses_renamed(
            f,
            part_uses(a, offset, len, source_name),
            part_uses(b, offset, len, source_name),
        ),
    decreases a.len(),
{
    if a.len() > 0 {
        let (x, y) = (a.drop_last(), b.drop_last());
        assert forall|i: int| 0 <= i < x.len() implies ({
            &&& (#[trigger] y[i]).is_var == x[i].is_var
            &&& y[i].value == x[i].value
            &&& x[i].is_var ==> renamed(
                f,
                x[i].namespace,
                offset,
                len,
                source_name,
                y[i].namespace,
            )
            &&& !x[i].is_var ==> y[i].namespace == x[i].namespace
        }) by {
            assert(y[i] == b[i]);
        }
        lemma_parts(f, x, y, offset, len, source_name);
        let last = b[b.len() - 1];
        assert(last == b.last());
        if a.last().is_var {
            let p = VarUseView {
                name: a.last().value,
                namespace: a.last().namespace,
                offset,
                len,
                source_name,
            };
            let q = VarUseView {
                name: b.last().value,
                namespace: b.last().namespace,
                offset,
                len,
                source_name,
            };
            assert(uses_renamed(f, seq![p], seq![q])) by {
                assert(seq![q][0] == q);
            }
            let u = part_uses(x, offset, len, source_name);
            let v = part_uses(y, offset, len, source_name);
            lemma_join(f, u, seq![p], v, seq![q]);
            assert(u + seq![p] =~= u.push(p));
            assert(v + seq![q] =~= v.push(q));
        }
    }
}

proof fn lemma_expr<F: Fn(&str, usize, usize, &str) -> String>(f: F, a: ExprView, b: ExprView)
    requires
        a.renamed_to(f, b),
    ensures
        uses_renamed(f, a.uses(), b.uses()),
{
    match a {
        ExprView::BacktickLit { parts, offset, len, source_name } => {
            lemma_parts(f, parts, b->BacktickLit_parts, offset, len, source_name);
        },
        _ => {
            assert(b.uses()[0] == b.uses()[0]);
        },
    }
}

proof fn lemma_pattern<F: Fn(&str, usize, usize, &str) -> String>(
    f: F,
    a: CasePatternView,
    b: CasePatternView,
)
    requires
        a.renamed_to(f, b),
    ensures
        uses_renamed(f, a.uses(), b.uses()),
{
    match a {
        CasePatternView::Literal { parts, offset, len, source_name } => {
            lemma_parts(f, parts, b->Literal_parts, offset, len, source_name);
        },
        _ => {},
    }
}

proof fn lemma_pairs<F: Fn(&str, usize, usize, &str) -> String>(
    f: F,
    a: Seq<EnvPairView>,
    b: Seq<EnvPairView>,
)
    requires
        pairs_renamed(f, a, b),
    ensures
        uses_renamed(f, pair_uses(a), pair_uses(b)),
    decreases a.len(),
{
    if a.len() > 0 {
        let (x, y) = (a.drop_last(), b.drop_last());
        assert forall|i: int| 0 <= i < x.len() implies (#[trigger] y[i]).key == x[i].key
            && x[i].value.renamed_to(f, y[i].value) by {
            assert(y[i] == b[i]);
        }
        lemma_pairs(f, x, y);
        let last = b[b.len() - 1];
        assert(last == b.last());
        lemma_expr(f, a.last().value, b.last().value);
        lemma_join(f, pair_uses(x), a.last().value.uses(), pair_uses(y), b.last().value.uses());
    }
}

/// Renaming gives every reference of a statement, wherever it stands in it, the
/// namespace that the function gives for it, and changes no other thing about it.
pub proof fn law_renaming_reaches_every_reference<F: Fn(&str, usize, usize, &str) -> String>(
    f: F,
    before: FnStmtView,
    after: FnStmtView,
)
    requires
        stmt_renamed(f, before, after),
    ensures
        uses_renamed(f, stmt_uses(before), stmt_uses(after)),
    decreases before, 0int,
{
    match before {
        FnStmtView::Log(a) => {
            lemma_expr(f, a, after->Log_0);
        },
        FnStmtView::Exec(a) => {
            lemma_expr(f, a, after->Exec_0);
        },
        FnStmtView::Cd(a) => {
            lemma_expr(f, a, after->Cd_0);
        },
        FnStmtView::VarDecl { value, .. } => {
            lemma_expr(f, value, after->VarDecl_value);
        },
        FnStmtView::EnvBlock { pairs, body } => {
            let (p, b) = (after->EnvBlock_pairs, after->EnvBlock_body);
            lemma_pairs(f, pairs, p);
            lemma_body(f, body, b);
            lemma_join(f, pair_uses(pairs), body_uses(body), pair_uses(p), body_uses(b));
        },
        FnStmtView::Case { condition, scopes } => {
            let (c, s) = (after->Case_condition, after->Case_scopes);
            lemma_expr(f, condition, c);
            lemma_arms(f, scopes, s);
            lemma_join(f, condition.uses(), arm_uses(scopes), c.uses(), arm_uses(s));
        },
    }
}

proof fn lemma_body<F: Fn(&str, usize, usize, &str) -> String>(
    f: F,
    a: Seq<FnStmtView>,
    b: Seq<FnStmtView>,
)
    requires
        body_renamed(f, a, b),
    ensures
        uses_renamed(f, body_uses(a), body_uses(b)),
    decreases a, 1int,
{
    if a.len() > 0 {
        let (x, y) = (a.drop_last(), b.drop_last());
        assert(decreases_to!(a => x)) by {
            assert(x =~= a.subrange(0, a.len() - 1));
        }
        assert forall|i: int| 0 <= i < x.len() implies stmt_renamed(f, x[i], #[trigger] y[i]) by {
            assert(y[i] == b[i]);
            assert(stmt_renamed(f, a[i], b[i]));
        }
        assert(body_renamed(f, x, y));
        lemma_body(f, x, y);
        let n = a.len() - 1;
        assert(stmt_renamed(f, a[n], b[n]));
        assert(decreases_to!(a => a[n]));
        law_renaming_reaches_every_reference(f, a[n], b[n]);
        lemma_join(f, body_uses(x), stmt_uses(a[n]), body_uses(y), stmt_uses(b[n]));
        assert(body_uses(a) == body_uses(x) + stmt_uses(a[n]));
        assert(body_uses(b) == body_uses(y) + stmt_uses(b[n]));
    }
}

proof fn lemma_arms<F: Fn(&str, usize, usize, &str) -> String>(
    f: F,
    a: Seq<CaseArmView>,
    b: Seq<CaseArmView>,
)
    requires
        arms_renamed(f, a, b),
    ensures
        uses_renamed(f, arm_uses(a), arm_uses(b)),
    decreases a, 1int,
{
    if a.len() > 0 {
        let (x, y) = (a.drop_last(), b.drop_last());
        assert(decreases_to!(a => x)) by {
            assert(x =~= a.subrange(0, a.len() - 1));
        }
        assert forall|i: int| 0 <= i < x.len() implies x[i].pattern.renamed_to(
            f,
            (#[trigger] y[i]).pattern,
        ) && body_renamed(f, x[i].body, y[i].body) by {
            assert(y[i] == b[i]);
            assert(body_renamed(f, a[i].body, b[i].body));
        }
        assert(arms_renamed(f, x, y));
        lemma_arms(f, x, y);
        let n = a.len() - 1;
        let (p, q) = (a[n], b[n]);
        assert(p.pattern.renamed_to(f, q.pattern) && body_renamed(f, p.body, q.body));
        assert(decreases_to!(a => a[n]));
        lemma_pattern(f, p.pattern, q.pattern);
        lemma_body(f, p.body, q.body);
        lemma_join(f, p.pattern.uses(), body_uses(p.body), q.pattern.uses(), body_uses(q.body));
        let own = p.pattern.uses() + body_uses(p.body);
        let other = q.pattern.uses() + body_uses(q.body);
        lemma_join(f, arm_uses(x), own, arm_uses(y), other);
        assert(arm_uses(a) == arm_uses(x) + own);
        assert(arm_uses(b) == arm_uses(y) + other);
    }
}

} // verus!
