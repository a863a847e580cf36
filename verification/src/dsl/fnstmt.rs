//! Statements in the body of a function.
use vstd::prelude::*;
use crate::dsl::syntax::{
    pair_views, part_uses, plain_refs, ref_views, renames_all, use_views, without_places, CaseArm,
    CasePatternView, EnvPair, EnvPairView, Expr, ExprView, VarType, VarUse, VarUseView, PartView,
};

verus! {

broadcast use vstd::string::group_string_axioms;

/// A variable declared inside a function.
#[derive(Debug)]
pub struct VarDeclStmt {
    pub var_type: VarType,
    pub name: String,
    pub value: Expr,
}

/// Statements that run with variables set.
#[derive(Debug)]
pub struct EnvBlockStmt {
    pub pairs: Vec<EnvPair>,
    pub body: Vec<FnStmt>,
}

/// A choice between arms.
#[derive(Debug)]
pub struct CaseStmt {
    pub condition: Expr,
    pub scopes: Vec<CaseArm>,
}

/// A statement in the body of a function.
#[derive(Debug)]
pub enum FnStmt {
    Log(Expr),
    Exec(Expr),
    Cd(Expr),
    VarDecl(VarDeclStmt),
    EnvBlock(EnvBlockStmt),
    Case(CaseStmt),
}

/// The contents of a [`CaseArm`].
pub struct CaseArmView {
    pub pattern: CasePatternView,
    pub body: Seq<FnStmtView>,
}

/// The contents of a [`FnStmt`].
pub enum FnStmtView {
    Log(ExprView),
    Exec(ExprView),
    Cd(ExprView),
    VarDecl { var_type: VarType, name: Seq<char>, value: ExprView },
    EnvBlock { pairs: Seq<EnvPairView>, body: Seq<FnStmtView> },
    Case { condition: ExprView, scopes: Seq<CaseArmView> },
}

pub open spec fn case_arm_view(a: CaseArm) -> CaseArmView
    decreases a,
{
    CaseArmView {
        pattern: a.pattern@,
        body: Seq::new(
            a.body@.len(),
            |i: int|
                if 0 <= i < a.body@.len() {
                    fn_stmt_view(a.body@[i])
                } else {
                    arbitrary()
                },
        ),
    }
}

pub open spec fn fn_stmt_view(s: FnStmt) -> FnStmtView
    decreases s,
{
    match s {
        FnStmt::Log(e) => FnStmtView::Log(e@),
        FnStmt::Exec(e) => FnStmtView::Exec(e@),
        FnStmt::Cd(e) => FnStmtView::Cd(e@),
        FnStmt::VarDecl(d) => FnStmtView::VarDecl {
            var_type: d.var_type,
            name: d.name@,
            value: d.value@,
        },
        FnStmt::EnvBlock(b) => FnStmtView::EnvBlock {
            pairs: pair_views(b.pairs@),
            body: Seq::new(
                b.body@.len(),
                |i: int|
                    if 0 <= i < b.body@.len() {
                        fn_stmt_view(b.body@[i])
                    } else {
                        arbitrary()
                    },
            ),
        },
        FnStmt::Case(c) => FnStmtView::Case {
            condition: c.condition@,
            scopes: Seq::new(
                c.scopes@.len(),
                |i: int|
                    if 0 <= i < c.scopes@.len() {
                        case_arm_view(c.scopes@[i])
                    } else {
                        arbitrary()
                    },
            ),
        },
    }
}

pub open spec fn fn_stmt_views(s: Seq<FnStmt>) -> Seq<FnStmtView> {
    Seq::new(s.len(), |i: int| fn_stmt_view(s[i]))
}

pub open spec fn case_arm_views(s: Seq<CaseArm>) -> Seq<CaseArmView> {
    Seq::new(s.len(), |i: int| case_arm_view(s[i]))
}

impl CaseArm {
    pub open spec fn view(&self) -> CaseArmView {
        case_arm_view(*self)
    }
}

/// The variables that the values of an `env` block refer to, in order.
pub open spec fn pair_uses(pairs: Seq<EnvPairView>) -> Seq<VarUseView>
    decreases pairs.len(),
{
    if pairs.len() == 0 {
        Seq::empty()
    } else {
        pair_uses(pairs.drop_last()) + pairs.last().value.uses()
    }
}

/// The variables that a statement refers to, in order: of an `env` block its
/// values before its body; of a `case` block its condition, then for each arm
/// the pattern before the body.
pub open spec fn stmt_uses(s: FnStmtView) -> Seq<VarUseView>
    decreases s,
{
    match s {
        FnStmtView::Log(e) => e.uses(),
        FnStmtView::Exec(e) => e.uses(),
        FnStmtView::Cd(e) => e.uses(),
        FnStmtView::VarDecl { value, .. } => value.uses(),
        FnStmtView::EnvBlock { pairs, body } => pair_uses(pairs) + body_uses(body),
        FnStmtView::Case { condition, scopes } => condition.uses() + arm_uses(scopes),
    }
}

pub open spec fn body_uses(body: Seq<FnStmtView>) -> Seq<VarUseView>
    decreases body,
{
    if body.len() == 0 {
        Seq::empty()
    } else {
        body_uses(body.drop_last()) + stmt_uses(body.last())
    }
}

pub open spec fn arm_uses(arms: Seq<CaseArmView>) -> Seq<VarUseView>
    decreases arms,
{
    if arms.len() == 0 {
        Seq::empty()
    } else {
        arm_uses(arms.drop_last()) + (arms.last().pattern.uses() + body_uses(arms.last().body))
    }
}

/// A statement with every expression and pattern in it moved to another place.
pub open spec fn stmt_moved(s: FnStmtView, source: Seq<char>, at: usize, length: usize) -> FnStmtView
    decreases s,
{
    match s {
        FnStmtView::Log(e) => FnStmtView::Log(e.moved(source, at, length)),
        FnStmtView::Exec(e) => FnStmtView::Exec(e.moved(source, at, length)),
        FnStmtView::Cd(e) => FnStmtView::Cd(e.moved(source, at, length)),
        FnStmtView::VarDecl { var_type, name, value } => FnStmtView::VarDecl {
            var_type,
            name,
            value: value.moved(source, at, length),
        },
        FnStmtView::EnvBlock { pairs, body } => FnStmtView::EnvBlock {
            pairs: pairs_moved(pairs, source, at, length),
            body: body_moved(body, source, at, length),
        },
        FnStmtView::Case { condition, scopes } => FnStmtView::Case {
            condition: condition.moved(source, at, length),
            scopes: arms_moved(scopes, source, at, length),
        },
    }
}

pub open spec fn pairs_moved(
    pairs: Seq<EnvPairView>,
    source: Seq<char>,
    at: usize,
    length: usize,
) -> Seq<EnvPairView> {
    Seq::new(
        pairs.len(),
        |i: int|
            EnvPairView { key: pairs[i].key, value: pairs[i].value.moved(source, at, length) },
    )
}

pub open spec fn body_moved(
    body: Seq<FnStmtView>,
    source: Seq<char>,
    at: usize,
    length: usize,
) -> Seq<FnStmtView>
    decreases body,
{
    Seq::new(
        body.len(),
        |i: int|
            if 0 <= i < body.len() {
                stmt_moved(body[i], source, at, length)
            } else {
                arbitrary()
            },
    )
}

pub open spec fn arms_moved(
    arms: Seq<CaseArmView>,
    source: Seq<char>,
    at: usize,
    length: usize,
) -> Seq<CaseArmView>
    decreases arms,
{
    Seq::new(
        arms.len(),
        |i: int|
            if 0 <= i < arms.len() {
                CaseArmView {
                    pattern: arms[i].pattern.moved(source, at, length),
                    body: body_moved(arms[i].body, source, at, length),
                }
            } else {
                arbitrary()
            },
    )
}

/// `after` is the statement `before` with every namespace in it renamed by `f`.
pub open spec fn stmt_renamed<F: Fn(&str, usize, usize, &str) -> String>(
    f: F,
    before: FnStmtView,
    after: FnStmtView,
) -> bool
    decreases before,
{
    match (before, after) {
        (FnStmtView::Log(a), FnStmtView::Log(b)) => a.renamed_to(f, b),
        (FnStmtView::Exec(a), FnStmtView::Exec(b)) => a.renamed_to(f, b),
        (FnStmtView::Cd(a), FnStmtView::Cd(b)) => a.renamed_to(f, b),
        (
            FnStmtView::VarDecl { var_type, name, value },
            FnStmtView::VarDecl { var_type: var_type2, name: name2, value: value2 },
        ) => var_type2 == var_type && name2 == name && value.renamed_to(f, value2),
        (
            FnStmtView::EnvBlock { pairs, body },
            FnStmtView::EnvBlock { pairs: pairs2, body: body2 },
        ) => pairs_renamed(f, pairs, pairs2) && body_renamed(f, body, body2),
        (
            FnStmtView::Case { condition, scopes },
            FnStmtView::Case { condition: condition2, scopes: scopes2 },
        ) => condition.renamed_to(f, condition2) && arms_renamed(f, scopes, scopes2),
        _ => false,
    }
}

pub open spec fn pairs_renamed<F: Fn(&str, usize, usize, &str) -> String>(
    f: F,
    before: Seq<EnvPairView>,
    after: Seq<EnvPairView>,
) -> bool {
    &&& before.len() == after.len()
    &&& forall|i: int|
        0 <= i < before.len() ==> (#[trigger] after[i]).key == before[i].key
            && before[i].value.renamed_to(f, after[i].value)
}

pub open spec fn body_renamed<F: Fn(&str, usize, usize, &str) -> String>(
    f: F,
    before: Seq<FnStmtView>,
    after: Seq<FnStmtView>,
) -> bool
    decreases before,
{
    &&& before.len() == after.len()
    &&& forall|i: int| 0 <= i < before.len() ==> stmt_renamed(f, before[i], #[trigger] after[i])
}

pub open spec fn arms_renamed<F: Fn(&str, usize, usize, &str) -> String>(
    f: F,
    before: Seq<CaseArmView>,
    after: Seq<CaseArmView>,
) -> bool
    decreases before,
{
    &&& before.len() == after.len()
    &&& forall|i: int|
        0 <= i < before.len() ==> before[i].pattern.renamed_to(f, (#[trigger] after[i]).pattern)
            && body_renamed(f, before[i].body, after[i].body)
}

fn append_uses(out: &mut Vec<VarUse>, more: Vec<VarUse>)
    ensures
        use_views(final(out)@) == use_views(old(out)@) + use_views(more@),
{
    let ghost before = use_views(out@);
    let ghost added = use_views(more@);
    let mut more = more;
    out.append(&mut more);
    assert(use_views(out@) =~= before + added);
}

fn collect_pair_uses(pairs: &Vec<EnvPair>, out: &mut Vec<VarUse>)
    ensures
        use_views(final(out)@) == use_views(old(out)@) + pair_uses(pair_views(pairs@)),
{
    let ghost start = use_views(out@);
    let ghost views = pair_views(pairs@);
    let mut i: usize = 0;
    proof {
        assert(views.take(0) =~= Seq::<EnvPairView>::empty());
        assert(start + pair_uses(views.take(0)) =~= start);
    }
    while i < pairs.len()
        invariant
            i <= pairs@.len(),
            views == pair_views(pairs@),
            use_views(out@) == start + pair_uses(views.take(i as int)),
        decreases pairs@.len() - i,
    {
        proof {
            let next = views.take(i + 1);
            assert(next.drop_last() =~= views.take(i as int));
            assert(next.last() == pairs@[i as int]@);
        }
        append_uses(out, pairs[i].value.visit_vars_spanned());
        assert(use_views(out@) =~= start + pair_uses(views.take(i + 1)));
        i += 1;
    }
    assert(views.take(i as int) =~= views);
}

fn collect_body_uses(body: &Vec<FnStmt>, out: &mut Vec<VarUse>)
    ensures
        use_views(final(out)@) == use_views(old(out)@) + body_uses(fn_stmt_views(body@)),
    decreases body,
{
    let ghost start = use_views(out@);
    let ghost views = fn_stmt_views(body@);
    let mut i: usize = 0;
    proof {
        assert(views.take(0) =~= Seq::<FnStmtView>::empty());
        assert(start + body_uses(views.take(0)) =~= start);
    }
    while i < body.len()
        invariant
            i <= body@.len(),
            views == fn_stmt_views(body@),
            use_views(out@) == start + body_uses(views.take(i as int)),
        decreases body@.len() - i,
    {
        proof {
            let next = views.take(i + 1);
            assert(next.drop_last() =~= views.take(i as int));
            assert(next.last() == body@[i as int]@);
            assert(decreases_to!(body@ => body@[i as int]));
        }
        body[i].collect_uses(out);
        assert(use_views(out@) =~= start + body_uses(views.take(i + 1)));
        i += 1;
    }
    assert(views.take(i as int) =~= views);
}

fn collect_arm_uses(arms: &Vec<CaseArm>, out: &mut Vec<VarUse>)
    ensures
        use_views(final(out)@) == use_views(old(out)@) + arm_uses(case_arm_views(arms@)),
    decreases arms,
{
    let ghost start = use_views(out@);
    let ghost views = case_arm_views(arms@);
    let mut i: usize = 0;
    proof {
        assert(views.take(0) =~= Seq::<CaseArmView>::empty());
        assert(start + arm_uses(views.take(0)) =~= start);
    }
    while i < arms.len()
        invariant
            i <= arms@.len(),
            views == case_arm_views(arms@),
            use_views(out@) == start + arm_uses(views.take(i as int)),
        decreases arms@.len() - i,
    {
        proof {
            let next = views.take(i + 1);
            assert(next.drop_last() =~= views.take(i as int));
            assert(next.last() == arms@[i as int]@);
            assert(arms@[i as int]@.body =~= fn_stmt_views(arms@[i as int].body@));
            assert(decreases_to!(arms@ => arms@[i as int]));
            assert(decreases_to!(arms@[i as int] => arms@[i as int].body));
        }
        append_uses(out, arms[i].pattern.visit_vars_spanned());
        collect_body_uses(&arms[i].body, out);
        assert(use_views(out@) =~= start + arm_uses(views.take(i + 1)));
        i += 1;
    }
    assert(views.take(i as int) =~= views);
}

fn rename_pairs<F: Fn(&str, usize, usize, &str) -> String>(pairs: &mut Vec<EnvPair>, f: &F)
    requires
        renames_all(*f),
    ensures
        pairs_renamed(*f, pair_views(old(pairs)@), pair_views(final(pairs)@)),
{
    let ghost before = pair_views(pairs@);
    let mut i: usize = 0;
    while i < pairs.len()
        invariant
            renames_all(*f),
            i <= pairs@.len(),
            before == pair_views(old(pairs)@),
            before.len() == pairs@.len(),
            forall|k: int| i <= k < pairs@.len() ==> (#[trigger] pairs@[k])@ == before[k],
            forall|k: int|
                0 <= k < i ==> (#[trigger] pairs@[k])@.key == before[k].key
                    && before[k].value.renamed_to(*f, pairs@[k]@.value),
        decreases pairs@.len() - i,
    {
        let pair = &mut pairs[i];
        pair.value.visit_namespaces_mut(f);
        i += 1;
    }
    proof {
        let after = pair_views(pairs@);
        assert forall|k: int| 0 <= k < before.len() implies (#[trigger] after[k]).key
            == before[k].key && before[k].value.renamed_to(*f, after[k].value) by {
            assert(pairs@[k]@ == after[k]);
        }
    }
}

fn rename_body<F: Fn(&str, usize, usize, &str) -> String>(body: &mut Vec<FnStmt>, f: &F)
    requires
        renames_all(*f),
    ensures
        body_renamed(*f, fn_stmt_views(old(body)@), fn_stmt_views(final(body)@)),
    decreases *old(body),
{
    let ghost first = body@;
    let ghost before = fn_stmt_views(body@);
    let mut i: usize = 0;
    while i < body.len()
        invariant
            renames_all(*f),
            i <= body@.len(),
            first == old(body)@,
            before == fn_stmt_views(first),
            before.len() == body@.len(),
            forall|k: int| i <= k < body@.len() ==> (#[trigger] body@[k]) == first[k],
            forall|k: int|
                0 <= k < i ==> stmt_renamed(*f, before[k], (#[trigger] body@[k])@),
        decreases body@.len() - i,
    {
        assert(decreases_to!(old(body)@ => old(body)@[i as int]));
        let stmt = &mut body[i];
        stmt.visit_namespaces_mut(f);
        i += 1;
    }
    proof {
        let after = fn_stmt_views(body@);
        assert forall|k: int| 0 <= k < before.len() implies stmt_renamed(
            *f,
            before[k],
            #[trigger] after[k],
        ) by {
            assert(body@[k]@ == after[k]);
        }
    }
}

fn rename_arms<F: Fn(&str, usize, usize, &str) -> String>(arms: &mut Vec<CaseArm>, f: &F)
    requires
        renames_all(*f),
    ensures
        arms_renamed(*f, case_arm_views(old(arms)@), case_arm_views(final(arms)@)),
    decreases *old(arms),
{
    let ghost first = arms@;
    let ghost before = case_arm_views(arms@);
    let mut i: usize = 0;
    while i < arms.len()
        invariant
            renames_all(*f),
            i <= arms@.len(),
            first == old(arms)@,
            before == case_arm_views(first),
            before.len() == arms@.len(),
            forall|k: int| i <= k < arms@.len() ==> (#[trigger] arms@[k]) == first[k],
            forall|k: int|
                0 <= k < i ==> before[k].pattern.renamed_to(*f, (#[trigger] arms@[k])@.pattern)
                    && body_renamed(*f, before[k].body, arms@[k]@.body),
        decreases arms@.len() - i,
    {
        proof {
            assert(decreases_to!(old(arms)@ => old(arms)@[i as int]));
            assert(decreases_to!(old(arms)@[i as int] => old(arms)@[i as int].body));
            assert(before[i as int].body =~= fn_stmt_views(first[i as int].body@));
        }
        let arm = &mut arms[i];
        arm.pattern.visit_namespaces_mut(f);
        rename_body(&mut arm.body, f);
        proof {
            assert(arms@[i as int]@.body =~= fn_stmt_views(arms@[i as int].body@));
        }
        i += 1;
    }
    proof {
        let after = case_arm_views(arms@);
        assert forall|k: int| 0 <= k < before.len() implies before[k].pattern.renamed_to(
            *f,
            (#[trigger] after[k]).pattern,
        ) && body_renamed(*f, before[k].body, after[k].body) by {
            assert(arms@[k]@ == after[k]);
        }
    }
}

impl FnStmt {
    pub open spec fn view(&self) -> FnStmtView {
        fn_stmt_view(*self)
    }

    fn collect_uses(&self, out: &mut Vec<VarUse>)
        ensures
            use_views(final(out)@) == use_views(old(out)@) + stmt_uses(self@),
        decreases self,
    {
        let ghost start = use_views(out@);
        match self {
            FnStmt::Log(e) => append_uses(out, e.visit_vars_spanned()),
            FnStmt::Exec(e) => append_uses(out, e.visit_vars_spanned()),
            FnStmt::Cd(e) => append_uses(out, e.visit_vars_spanned()),
            FnStmt::VarDecl(d) => append_uses(out, d.value.visit_vars_spanned()),
            FnStmt::EnvBlock(b) => {
                assert(self@->EnvBlock_body =~= fn_stmt_views(b.body@));
                collect_pair_uses(&b.pairs, out);
                collect_body_uses(&b.body, out);
                assert(use_views(out@) =~= start + stmt_uses(self@));
            },
            FnStmt::Case(c) => {
                assert(self@->Case_scopes =~= case_arm_views(c.scopes@));
                append_uses(out, c.condition.visit_vars_spanned());
                collect_arm_uses(&c.scopes, out);
                assert(use_views(out@) =~= start + stmt_uses(self@));
            },
        }
    }

    /// The variables that the statement refers to, each with its place.
    pub fn visit_vars_spanned(&self) -> (r: Vec<VarUse>)
        ensures
            use_views(r@) == stmt_uses(self@),
    {
        let mut out: Vec<VarUse> = Vec::new();
        self.collect_uses(&mut out);
        assert(use_views(out@) =~= stmt_uses(self@));
        out
    }

    /// The variables that the statement refers to, as name and namespace.
    pub fn visit_vars(&self) -> (r: Vec<(String, String)>)
        ensures
            ref_views(r@) == without_places(stmt_uses(self@)),
    {
        plain_refs(self.visit_vars_spanned())
    }

    /// Give every namespace in the statement the name that `f` has for it.
    pub fn visit_namespaces_mut<F: Fn(&str, usize, usize, &str) -> String>(&mut self, f: &F)
        requires
            renames_all(*f),
        ensures
            stmt_renamed(*f, old(self)@, final(self)@),
        decreases *old(self),
    {
        let ghost first = *self;
        match self {
            FnStmt::Log(e) => e.visit_namespaces_mut(f),
            FnStmt::Exec(e) => e.visit_namespaces_mut(f),
            FnStmt::Cd(e) => e.visit_namespaces_mut(f),
            FnStmt::VarDecl(d) => d.value.visit_namespaces_mut(f),
            FnStmt::EnvBlock(b) => {
                rename_pairs(&mut b.pairs, f);
                rename_body(&mut b.body, f);
            },
            FnStmt::Case(c) => {
                c.condition.visit_namespaces_mut(f);
                rename_arms(&mut c.scopes, f);
            },
        }
        proof {
            lemma_view_fields(first);
            lemma_view_fields(*self);
        }
    }

    /// Move every expression and pattern in the statement to another place.
    pub fn remap_source_span(&mut self, new_source: &str, new_offset: usize, new_len: usize)
        ensures
            final(self)@ == stmt_moved(old(self)@, new_source@, new_offset, new_len),
        decreases *old(self),
    {
        let ghost first = *self;
        match self {
            FnStmt::Log(e) => e.remap_source_span(new_source, new_offset, new_len),
            FnStmt::Exec(e) => e.remap_source_span(new_source, new_offset, new_len),
            FnStmt::Cd(e) => e.remap_source_span(new_source, new_offset, new_len),
            FnStmt::VarDecl(d) => d.value.remap_source_span(new_source, new_offset, new_len),
            FnStmt::EnvBlock(b) => {
                move_pairs(&mut b.pairs, new_source, new_offset, new_len);
                move_body(&mut b.body, new_source, new_offset, new_len);
            },
            FnStmt::Case(c) => {
                c.condition.remap_source_span(new_source, new_offset, new_len);
                move_arms(&mut c.scopes, new_source, new_offset, new_len);
            },
        }
        proof {
            lemma_view_fields(first);
            lemma_view_fields(*self);
        }
    }
}

/// The bodies of a statement's view are the views of its bodies.
proof fn lemma_view_fields(s: FnStmt)
    ensures
        s matches FnStmt::EnvBlock(b) ==> s@->EnvBlock_body == fn_stmt_views(b.body@),
        s matches FnStmt::Case(c) ==> s@->Case_scopes == case_arm_views(c.scopes@),
{
    match s {
        FnStmt::EnvBlock(b) => {
            assert(s@->EnvBlock_body =~= fn_stmt_views(b.body@));
        },
        FnStmt::Case(c) => {
            assert(s@->Case_scopes =~= case_arm_views(c.scopes@));
        },
        _ => {},
    }
}

fn move_pairs(pairs: &mut Vec<EnvPair>, source: &str, at: usize, length: usize)
    ensures
        pair_views(final(pairs)@) == pairs_moved(pair_views(old(pairs)@), source@, at, length),
{
    let ghost before = pair_views(pairs@);
    let ghost want = pairs_moved(before, source@, at, length);
    let mut i: usize = 0;
    while i < pairs.len()
        invariant
            i <= pairs@.len(),
            before == pair_views(old(pairs)@),
            want == pairs_moved(before, source@, at, length),
            before.len() == pairs@.len(),
            forall|k: int| i <= k < pairs@.len() ==> (#[trigger] pairs@[k])@ == before[k],
            forall|k: int| 0 <= k < i ==> (#[trigger] pairs@[k])@ == want[k],
        decreases pairs@.len() - i,
    {
        let pair = &mut pairs[i];
        pair.value.remap_source_span(source, at, length);
        i += 1;
    }
    assert(pair_views(pairs@) =~= want);
}

fn move_body(body: &mut Vec<FnStmt>, source: &str, at: usize, length: usize)
    ensures
        fn_stmt_views(final(body)@) == body_moved(fn_stmt_views(old(body)@), source@, at, length),
    decreases *old(body),
{
    let ghost first = body@;
    let ghost before = fn_stmt_views(body@);
    let ghost want = body_moved(before, source@, at, length);
    let mut i: usize = 0;
    while i < body.len()
        invariant
            i <= body@.len(),
            first == old(body)@,
            before == fn_stmt_views(first),
            want == body_moved(before, source@, at, length),
            before.len() == body@.len(),
            forall|k: int| i <= k < body@.len() ==> (#[trigger] body@[k]) == first[k],
            forall|k: int| 0 <= k < i ==> (#[trigger] body@[k])@ == want[k],
        decreases body@.len() - i,
    {
        assert(decreases_to!(old(body)@ => old(body)@[i as int]));
        let stmt = &mut body[i];
        stmt.remap_source_span(source, at, length);
        i += 1;
    }
    assert(fn_stmt_views(body@) =~= want);
}

fn move_arms(arms: &mut Vec<CaseArm>, source: &str, at: usize, length: usize)
    ensures
        case_arm_views(final(arms)@) == arms_moved(case_arm_views(old(arms)@), source@, at, length),
    decreases *old(arms),
{
    let ghost first = arms@;
    let ghost before = case_arm_views(arms@);
    let ghost want = arms_moved(before, source@, at, length);
    let mut i: usize = 0;
    while i < arms.len()
        invariant
            i <= arms@.len(),
            first == old(arms)@,
            before == case_arm_views(first),
            want == arms_moved(before, source@, at, length),
            before.len() == arms@.len(),
            forall|k: int| i <= k < arms@.len() ==> (#[trigger] arms@[k]) == first[k],
            forall|k: int| 0 <= k < i ==> (#[trigger] arms@[k])@ == want[k],
        decreases arms@.len() - i,
    {
        proof {
            assert(decreases_to!(old(arms)@ => old(arms)@[i as int]));
            assert(decreases_to!(old(arms)@[i as int] => old(arms)@[i as int].body));
            assert(before[i as int].body =~= fn_stmt_views(first[i as int].body@));
        }
        let arm = &mut arms[i];
        arm.pattern.remap_source_span(source, at, length);
        move_body(&mut arm.body, source, at, length);
        proof {
            assert(arms@[i as int]@.body =~= fn_stmt_views(arms@[i as int].body@));
        }
        i += 1;
    }
    assert(case_arm_views(arms@) =~= want);
}

/// Moving a statement changes the places of its references and nothing else:
/// the variables it refers to stay the same, in the same order.
pub proof fn law_moving_keeps_uses(s: FnStmtView, source: Seq<char>, at: usize, length: usize)
    ensures
        without_places(stmt_uses(stmt_moved(s, source, at, length))) == without_places(
            stmt_uses(s),
        ),
    decreases s,
{
    match s {
        FnStmtView::EnvBlock { pairs, body } => {
            lemma_moved_pair_uses(pairs, source, at, length);
            lemma_moved_body_uses(body, source, at, length);
            lemma_join_places(
                pair_uses(pairs_moved(pairs, source, at, length)),
                body_uses(body_moved(body, source, at, length)),
            );
            lemma_join_places(pair_uses(pairs), body_uses(body));
        },
        FnStmtView::Case { condition, scopes } => {
            lemma_moved_expr_uses(condition, source, at, length);
            lemma_moved_arm_uses(scopes, source, at, length);
            lemma_join_places(
                condition.moved(source, at, length).uses(),
                arm_uses(arms_moved(scopes, source, at, length)),
            );
            lemma_join_places(condition.uses(), arm_uses(scopes));
        },
        FnStmtView::Log(e) => {
            lemma_moved_expr_uses(e, source, at, length);
        },
        FnStmtView::Exec(e) => {
            lemma_moved_expr_uses(e, source, at, length);
        },
        FnStmtView::Cd(e) => {
            lemma_moved_expr_uses(e, source, at, length);
        },
        FnStmtView::VarDecl { value, .. } => {
            lemma_moved_expr_uses(value, source, at, length);
        },
    }
}

proof fn lemma_join_places(a: Seq<VarUseView>, b: Seq<VarUseView>)
    ensures
        without_places(a + b) == without_places(a) + without_places(b),
{
    assert(without_places(a + b) =~= without_places(a) + without_places(b));
}

proof fn lemma_moved_part_uses(
    parts: Seq<PartView>,
    o1: usize,
    l1: usize,
    s1: Seq<char>,
    o2: usize,
    l2: usize,
    s2: Seq<char>,
)
    ensures
        without_places(part_uses(parts, o1, l1, s1)) == without_places(
            part_uses(parts, o2, l2, s2),
        ),
    decreases parts.len(),
{
    if parts.len() > 0 {
        lemma_moved_part_uses(parts.drop_last(), o1, l1, s1, o2, l2, s2);
        let a = part_uses(parts.drop_last(), o1, l1, s1);
        let b = part_uses(parts.drop_last(), o2, l2, s2);
        assert(without_places(a).len() == a.len() && without_places(b).len() == b.len());
        assert forall|i: int| 0 <= i < a.len() implies (#[trigger] a[i]).name == b[i].name
            && a[i].namespace == b[i].namespace by {
            assert(without_places(a)[i] == without_places(b)[i]);
        }
        assert(without_places(part_uses(parts, o1, l1, s1)) =~= without_places(
            part_uses(parts, o2, l2, s2),
        ));
    }
}

proof fn lemma_moved_expr_uses(e: ExprView, source: Seq<char>, at: usize, length: usize)
    ensures
        without_places(e.moved(source, at, length).uses()) == without_places(e.uses()),
{
    match e {
        ExprView::BacktickLit { parts, offset, len, source_name } => {
            lemma_moved_part_uses(parts, at, length, source, offset, len, source_name);
        },
        ExprView::VarRef { .. } => {
            assert(without_places(e.moved(source, at, length).uses()) =~= without_places(e.uses()));
        },
    }
}

proof fn lemma_moved_pattern_uses(p: CasePatternView, source: Seq<char>, at: usize, length: usize)
    ensures
        without_places(p.moved(source, at, length).uses()) == without_places(p.uses()),
{
    match p {
        CasePatternView::Literal { parts, offset, len, source_name } => {
            lemma_moved_part_uses(parts, at, length, source, offset, len, source_name);
        },
        _ => {
            assert(without_places(p.moved(source, at, length).uses()) =~= without_places(p.uses()));
        },
    }
}

proof fn lemma_moved_pair_uses(pairs: Seq<EnvPairView>, source: Seq<char>, at: usize, length: usize)
    ensures
        without_places(pair_uses(pairs_moved(pairs, source, at, length))) == without_places(
            pair_uses(pairs),
        ),
    decreases pairs.len(),
{
    let moved = pairs_moved(pairs, source, at, length);
    if pairs.len() > 0 {
        lemma_moved_pair_uses(pairs.drop_last(), source, at, length);
        assert(moved.drop_last() =~= pairs_moved(pairs.drop_last(), source, at, length));
        lemma_moved_expr_uses(pairs.last().value, source, at, length);
        lemma_join_places(pair_uses(moved.drop_last()), moved.last().value.uses());
        lemma_join_places(pair_uses(pairs.drop_last()), pairs.last().value.uses());
    }
}

proof fn lemma_moved_body_uses(body: Seq<FnStmtView>, source: Seq<char>, at: usize, length: usize)
    ensures
        without_places(body_uses(body_moved(body, source, at, length))) == without_places(
            body_uses(body),
        ),
    decreases body,
{
    let moved = body_moved(body, source, at, length);
    if body.len() > 0 {
        lemma_moved_body_uses(body.drop_last(), source, at, length);
        assert(moved.drop_last() =~= body_moved(body.drop_last(), source, at, length));
        law_moving_keeps_uses(body.last(), source, at, length);
        lemma_join_places(body_uses(moved.drop_last()), stmt_uses(moved.last()));
        lemma_join_places(body_uses(body.drop_last()), stmt_uses(body.last()));
    }
}

proof fn lemma_moved_arm_uses(arms: Seq<CaseArmView>, source: Seq<char>, at: usize, length: usize)
    ensures
        without_places(arm_uses(arms_moved(arms, source, at, length))) == without_places(
            arm_uses(arms),
        ),
    decreases arms,
{
    let moved = arms_moved(arms, source, at, length);
    if arms.len() > 0 {
        lemma_moved_arm_uses(arms.drop_last(), source, at, length);
        assert(moved.drop_last() =~= arms_moved(arms.drop_last(), source, at, length));
        let a = arms.last();
        let m = moved.last();
        lemma_moved_pattern_uses(a.pattern, source, at, length);
        lemma_moved_body_uses(a.body, source, at, length);
        lemma_join_places(m.pattern.uses(), body_uses(m.body));
        lemma_join_places(a.pattern.uses(), body_uses(a.body));
        lemma_join_places(
            arm_uses(moved.drop_last()),
            m.pattern.uses() + body_uses(m.body),
        );
        lemma_join_places(arm_uses(arms.drop_last()), a.pattern.uses() + body_uses(a.body));
    }
}

} // verus!
