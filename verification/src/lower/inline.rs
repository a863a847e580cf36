//! Inlining of variables and lowering of function bodies.
use vstd::prelude::*;
use crate::diagnostics::{
    clamped, diagnostic_views, source_text, spanned_report_on, Diagnostic, DiagnosticView,
};
use crate::ir;
use crate::lower::{CompileError, CompileErrorView};
use crate::names::{lookup, map_entries, Entries, NameMap};
use crate::plan::ArmPattern;
use crate::syntax::{
    arm_views, fn_stmt_views, pair_views, part_views, Arm, ArmView, EnvPair, EnvPairView, FnStmt,
    FnStmtView, Part, PartView, Template, TemplateView,
};
use crate::text::same;

verus! {

broadcast use vstd::string::group_string_axioms;

/// The sources that errors refer to, and the name of the one that is compiled.
pub struct Place {
    pub sources: Entries<String>,
    pub source_name: Seq<char>,
}

/// A validation error about a span of the source that is compiled.
pub open spec fn invalid(p: Place, msg: Seq<char>, offset: usize, len: usize) -> CompileErrorView {
    CompileErrorView::Validation(
        seq![
            DiagnosticView {
                source_name: p.source_name,
                span: clamped(source_text(p.sources, p.source_name), offset, len),
                msg,
                source_text: source_text(p.sources, p.source_name),
            },
        ],
    )
}

/// One, for an empty span.
pub open spec fn at_least_one(len: usize) -> usize {
    if len == 0 {
        1
    } else {
        len
    }
}

pub open spec fn template_viewer() -> spec_fn(Template) -> TemplateView {
    |t: Template| t@
}

/// The values of variables, by their contents.
pub open spec fn scope_view(scope: Entries<Template>) -> Entries<TemplateView> {
    map_entries(scope, template_viewer())
}

// ── Inlining ─────────────────────────────────────────────────────────────────

/// The pieces of a template with every variable replaced by its value, where
/// `stack` holds the variables that are being replaced.
pub open spec fn inlined_parts(
    p: Place,
    t: TemplateView,
    scope: Entries<TemplateView>,
    stack: Seq<Seq<char>>,
) -> Result<Seq<PartView>, CompileErrorView>
    decreases scope.len() - stack.len(), t, 1int,
{
    inlined_from(p, t, t.parts, scope, stack)
}

/// The same of some of its pieces.
pub open spec fn inlined_from(
    p: Place,
    t: TemplateView,
    parts: Seq<PartView>,
    scope: Entries<TemplateView>,
    stack: Seq<Seq<char>>,
) -> Result<Seq<PartView>, CompileErrorView>
    decreases scope.len() - stack.len(), parts, 0int,
{
    if parts.len() == 0 {
        Ok(Seq::empty())
    } else {
        match inlined_from(p, t, parts.drop_last(), scope, stack) {
            Err(e) => Err(e),
            Ok(before) => match parts.last() {
                PartView::Lit(s) => Ok(before.push(PartView::Lit(s))),
                PartView::Var(name) => if stack.contains(name) {
                    Err(
                        invalid(
                            p,
                            "circular variable reference: "@ + name,
                            t.offset,
                            at_least_one(t.len),
                        ),
                    )
                } else {
                    match lookup(scope, name) {
                        None => Err(
                            invalid(
                                p,
                                "undefined variable: "@ + name,
                                t.offset,
                                at_least_one(t.len),
                            ),
                        ),
                        Some(value) => if stack.len() < scope.len() {
                            match inlined_parts(p, value, scope, stack.push(name)) {
                                Err(e) => Err(e),
                                Ok(more) => Ok(before + more),
                            }
                        } else {
                            arbitrary()
                        },
                    }
                },
                PartView::Cmd(inner) => match inlined_parts(p, inner, scope, stack) {
                    Err(e) => Err(e),
                    Ok(more) => Ok(
                        before.push(PartView::Cmd(TemplateView { parts: more, ..inner })),
                    ),
                },
            },
        }
    }
}

/// A template with every variable replaced by its value.
pub open spec fn inlined(p: Place, t: TemplateView, scope: Entries<TemplateView>) -> Result<
    TemplateView,
    CompileErrorView,
> {
    match inlined_parts(p, t, scope, Seq::empty()) {
        Err(e) => Err(e),
        Ok(parts) => Ok(TemplateView { parts, ..t }),
    }
}

/// An error in the first pieces is the error of all of them.
proof fn lemma_inlined_error(
    p: Place,
    t: TemplateView,
    parts: Seq<PartView>,
    scope: Entries<TemplateView>,
    stack: Seq<Seq<char>>,
    n: int,
)
    requires
        0 <= n <= parts.len(),
        inlined_from(p, t, parts.take(n), scope, stack) is Err,
    ensures
        inlined_from(p, t, parts, scope, stack) == inlined_from(p, t, parts.take(n), scope, stack),
    decreases parts.len(),
{
    if n < parts.len() {
        assert(parts.drop_last().take(n) =~= parts.take(n));
        lemma_inlined_error(p, t, parts.drop_last(), scope, stack, n);
    } else {
        assert(parts.take(n) =~= parts);
    }
}

pub open spec fn stack_view(s: Seq<String>) -> Seq<Seq<char>> {
    Seq::new(s.len(), |i: int| s[i]@)
}

/// The stack holds different variables of the scope.
pub open spec fn stack_fits(scope: Entries<TemplateView>, stack: Seq<Seq<char>>) -> bool {
    &&& stack.no_duplicates()
    &&& forall|i: int| 0 <= i < stack.len() ==> lookup(scope, #[trigger] stack[i]) is Some
}

fn on_stack(stack: &Vec<String>, name: &str) -> (r: bool)
    ensures
        r == stack_view(stack@).contains(name@),
{
    let mut i: usize = 0;
    while i < stack.len()
        invariant
            i <= stack@.len(),
            forall|k: int| 0 <= k < i ==> (#[trigger] stack@[k])@ != name@,
        decreases stack@.len() - i,
    {
        if same(stack[i].as_str(), name) {
            assert(stack_view(stack@)[i as int] == name@);
            return true;
        }
        i += 1;
    }
    proof {
        if stack_view(stack@).contains(name@) {
            let k = choose|k: int|
                0 <= k < stack_view(stack@).len() && stack_view(stack@)[k] == name@;
            assert(stack@[k]@ == name@);
        }
    }
    false
}

/// A validation error with one message.
pub(crate) fn invalid_error(
    msg: String,
    sources: &NameMap<String>,
    source_name: &str,
    offset: usize,
    len: usize,
) -> (r: CompileError)
    ensures
        r@ == invalid(
            Place { sources: sources@, source_name: source_name@ },
            msg@,
            offset,
            len,
        ),
{
    let d = spanned_report_on(msg, sources, source_name, offset, len);
    let mut v: Vec<Diagnostic> = Vec::new();
    v.push(d);
    assert(diagnostic_views(v@) =~= seq![d@]);
    CompileError::Validation(v)
}

fn max_one(len: usize) -> (r: usize)
    ensures
        r == at_least_one(len),
{
    if len == 0 {
        1
    } else {
        len
    }
}

fn append_parts(out: &mut Vec<Part>, more: Vec<Part>)
    ensures
        part_views(final(out)@) == part_views(old(out)@) + part_views(more@),
{
    let ghost before = part_views(out@);
    let ghost added = part_views(more@);
    let mut more = more;
    out.append(&mut more);
    assert(part_views(out@) =~= before + added);
}

/// Replace every variable in a template by its value. Commands stay. `stack`
/// holds the variables that are being replaced, so that a variable that refers
/// to itself is found out.
fn inline_dsl_parts(
    tmpl: &Template,
    scope: &NameMap<Template>,
    sources: &NameMap<String>,
    source_name: &str,
    stack: &mut Vec<String>,
) -> (r: Result<Vec<Part>, CompileError>)
    requires
        stack_fits(scope_view(scope@), stack_view(old(stack)@)),
    ensures
        r is Ok ==> stack_view(final(stack)@) == stack_view(old(stack)@),
        inlined_parts(
            Place { sources: sources@, source_name: source_name@ },
            tmpl@,
            scope_view(scope@),
            stack_view(old(stack)@),
        ) == match r {
            Ok(v) => Ok::<Seq<PartView>, CompileErrorView>(part_views(v@)),
            Err(e) => Err(e@),
        },
    decreases scope@.len() - old(stack)@.len(), tmpl,
{
    let ghost p = Place { sources: sources@, source_name: source_name@ };
    let ghost t = tmpl@;
    let ghost sc = scope_view(scope@);
    let ghost st = stack_view(stack@);
    let mut out: Vec<Part> = Vec::new();
    let mut i: usize = 0;
    proof {
        assert(t.parts.take(0) =~= Seq::<PartView>::empty());
        assert(part_views(out@) =~= Seq::<PartView>::empty());
    }
    while i < tmpl.parts.len()
        invariant
            i <= tmpl.parts@.len(),
            p == (Place { sources: sources@, source_name: source_name@ }),
            t == tmpl@,
            sc == scope_view(scope@),
            st == stack_view(old(stack)@),
            stack_view(stack@) == st,
            stack@.len() == old(stack)@.len(),
            stack_fits(sc, st),
            inlined_from(p, t, t.parts.take(i as int), sc, st) == Ok::<
                Seq<PartView>,
                CompileErrorView,
            >(part_views(out@)),
        decreases tmpl.parts@.len() - i,
    {
        let ghost part = tmpl.parts@[i as int];
        let ghost next = t.parts.take(i + 1);
        let ghost before = part_views(out@);
        proof {
            assert(next.drop_last() =~= t.parts.take(i as int));
            assert(next.last() == part@);
            assert(decreases_to!(tmpl.parts@ => tmpl.parts@[i as int]));
            if inlined_from(p, t, next, sc, st) is Err {
                lemma_inlined_error(p, t, t.parts, sc, st, i + 1);
            }
        }
        match &tmpl.parts[i] {
            Part::Lit(s) => {
                let lit = Part::Lit(s.clone());
                out.push(lit);
                assert(part_views(out@) =~= before.push(PartView::Lit(s@)));
            },
            Part::Var(name) => {
                if on_stack(stack, name.as_str()) {
                    let mut msg = "circular variable reference: ".to_owned();
                    msg.push_str(name.as_str());
                    return Err(
                        invalid_error(msg, sources, source_name, tmpl.offset, max_one(tmpl.len)),
                    );
                }
                proof {
                    crate::names::lemma_map_lookup(scope@, template_viewer(), name@);
                }
                let value = match scope.get(name.as_str()) {
                    Some(value) => value,
                    None => {
                        let mut msg = "undefined variable: ".to_owned();
                        msg.push_str(name.as_str());
                        return Err(
                            invalid_error(
                                msg,
                                sources,
                                source_name,
                                tmpl.offset,
                                max_one(tmpl.len),
                            ),
                        );
                    },
                };
                proof {
                    crate::names::lemma_fewer_names(sc, st, name@);
                    let pushed = st.push(name@);
                    assert(pushed.no_duplicates()) by {
                        assert forall|a: int, b: int| 0 <= a < b < pushed.len() implies pushed[a]
                            != pushed[b] by {
                            if b == st.len() {
                                assert(st.contains(st[a]));
                            }
                        }
                    }
                    assert forall|k: int| 0 <= k < pushed.len() implies lookup(
                        sc,
                        #[trigger] pushed[k],
                    ) is Some by {
                        if k < st.len() {
                            assert(lookup(sc, st[k]) is Some);
                        }
                    }
                }
                stack.push(name.clone());
                assert(stack_view(stack@) =~= st.push(name@));
                match inline_dsl_parts(value, scope, sources, source_name, stack) {
                    Err(e) => {
                        return Err(e);
                    },
                    Ok(more) => {
                        stack.pop();
                        proof {
                            assert(stack_view(stack@) =~= st.push(name@).drop_last());
                            assert(st.push(name@).drop_last() =~= st);
                            assert(stack_view(stack@).len() == stack@.len());
                        }
                        append_parts(&mut out, more);
                    },
                }
            },
            Part::Cmd(inner) => {
                assert(decreases_to!(part => part->Cmd_0));
                match inline_dsl_parts(inner, scope, sources, source_name, stack) {
                    Err(e) => {
                        return Err(e);
                    },
                    Ok(more) => {
                        let cmd = Part::Cmd(
                            Template {
                                parts: more,
                                offset: inner.offset,
                                len: inner.len,
                                source_name: inner.source_name.clone(),
                            },
                        );
                        proof {
                            assert(cmd@->Cmd_0.parts =~= part_views(more@));
                            assert(stack_view(stack@).len() == stack@.len());
                        }
                        out.push(cmd);
                        assert(part_views(out@) =~= before.push(cmd@));
                    },
                }
            },
        }
        i += 1;
    }
    assert(t.parts.take(i as int) =~= t.parts);
    Ok(out)
}

/// Replace every variable in a template by its value.
pub fn inline_dsl_template(
    tmpl: &Template,
    scope: &NameMap<Template>,
    sources: &NameMap<String>,
    source_name: &str,
) -> (r: Result<Template, CompileError>)
    ensures
        inlined(
            Place { sources: sources@, source_name: source_name@ },
            tmpl@,
            scope_view(scope@),
        ) == match r {
            Ok(t) => Ok::<TemplateView, CompileErrorView>(t@),
            Err(e) => Err(e@),
        },
{
    let mut stack: Vec<String> = Vec::new();
    assert(stack_view(stack@) =~= Seq::<Seq<char>>::empty());
    match inline_dsl_parts(tmpl, scope, sources, source_name, &mut stack) {
        Err(e) => Err(e),
        Ok(parts) => {
            let t = Template {
                parts,
                offset: tmpl.offset,
                len: tmpl.len,
                source_name: tmpl.source_name.clone(),
            };
            assert(t@.parts =~= part_views(parts@));
            Ok(t)
        },
    }
}

/// No variable stands anywhere in a template.
pub open spec fn has_no_vars(t: TemplateView) -> bool
    decreases t,
{
    parts_have_no_vars(t.parts)
}

pub open spec fn parts_have_no_vars(parts: Seq<PartView>) -> bool
    decreases parts,
{
    parts.len() > 0 ==> parts_have_no_vars(parts.drop_last()) && match parts.last() {
        PartView::Lit(_) => true,
        PartView::Var(_) => false,
        PartView::Cmd(inner) => has_no_vars(inner),
    }
}

proof fn lemma_no_vars_join(a: Seq<PartView>, b: Seq<PartView>)
    requires
        parts_have_no_vars(a),
        parts_have_no_vars(b),
    ensures
        parts_have_no_vars(a + b),
    decreases b.len(),
{
    if b.len() == 0 {
        assert(a + b =~= a);
    } else {
        lemma_no_vars_join(a, b.drop_last());
        assert((a + b).drop_last() =~= a + b.drop_last());
        assert((a + b).last() == b.last());
    }
}

proof fn lemma_inlined_no_vars(
    p: Place,
    t: TemplateView,
    parts: Seq<PartView>,
    scope: Entries<TemplateView>,
    stack: Seq<Seq<char>>,
)
    requires
        stack_fits(scope, stack),
        inlined_from(p, t, parts, scope, stack) is Ok,
    ensures
        parts_have_no_vars(inlined_from(p, t, parts, scope, stack)->Ok_0),
    decreases scope.len() - stack.len(), parts,
{
    reveal_with_fuel(inlined_parts, 2);
    reveal_with_fuel(inlined_from, 2);
    reveal_with_fuel(has_no_vars, 2);
    reveal_with_fuel(parts_have_no_vars, 2);
    if parts.len() > 0 {
        let init = parts.drop_last();
        lemma_inlined_no_vars(p, t, init, scope, stack);
        let before = inlined_from(p, t, init, scope, stack)->Ok_0;
        let r = inlined_from(p, t, parts, scope, stack)->Ok_0;
        match parts.last() {
            PartView::Lit(s) => {
                assert(r.drop_last() =~= before);
            },
            PartView::Var(name) => {
                let value = lookup(scope, name)->Some_0;
                crate::names::lemma_fewer_names(scope, stack, name);
                let pushed = stack.push(name);
                assert(stack_fits(scope, pushed)) by {
                    assert forall|a: int, b: int| 0 <= a < b < pushed.len() implies pushed[a]
                        != pushed[b] by {
                        if b == stack.len() {
                            assert(stack.contains(stack[a]));
                        }
                    }
                    assert forall|k: int| 0 <= k < pushed.len() implies lookup(
                        scope,
                        #[trigger] pushed[k],
                    ) is Some by {
                        if k < stack.len() {
                            assert(lookup(scope, stack[k]) is Some);
                        }
                    }
                }
                lemma_inlined_no_vars(p, value, value.parts, scope, pushed);
                lemma_no_vars_join(before, inlined_parts(p, value, scope, pushed)->Ok_0);
            },
            PartView::Cmd(inner) => {
                lemma_inlined_no_vars(p, inner, inner.parts, scope, stack);
                assert(r.drop_last() =~= before);
            },
        }
    }
}

/// What inlining gives holds no variables.
pub proof fn law_inlined_has_no_vars(p: Place, t: TemplateView, scope: Entries<TemplateView>)
    ensures
        inlined(p, t, scope) matches Ok(u) ==> has_no_vars(u),
{
    if inlined(p, t, scope) is Ok {
        assert(stack_fits(scope, Seq::empty()));
        lemma_inlined_no_vars(p, t, t.parts, scope, Seq::empty());
    }
}

pub(crate) proof fn lemma_inlined_same(
    p: Place,
    t: TemplateView,
    parts: Seq<PartView>,
    scope: Entries<TemplateView>,
    stack: Seq<Seq<char>>,
)
    requires
        parts_have_no_vars(parts),
    ensures
        inlined_from(p, t, parts, scope, stack) == Ok::<Seq<PartView>, CompileErrorView>(parts),
    decreases parts,
{
    reveal_with_fuel(inlined_parts, 2);
    reveal_with_fuel(inlined_from, 2);
    reveal_with_fuel(has_no_vars, 2);
    reveal_with_fuel(parts_have_no_vars, 2);
    if parts.len() == 0 {
        assert(parts =~= Seq::<PartView>::empty());
    } else {
        lemma_inlined_same(p, t, parts.drop_last(), scope, stack);
        match parts.last() {
            PartView::Cmd(inner) => {
                lemma_inlined_same(p, inner, inner.parts, scope, stack);
                assert(TemplateView { parts: inner.parts, ..inner } == inner);
            },
            _ => {},
        }
        assert(parts.drop_last().push(parts.last()) =~= parts);
    }
}

/// Inlining changes nothing in a template without variables, so to inline twice
/// is to inline once.
pub proof fn law_inlining_is_idempotent(p: Place, t: TemplateView, scope: Entries<TemplateView>)
    ensures
        has_no_vars(t) ==> inlined(p, t, scope) == Ok::<TemplateView, CompileErrorView>(t),
        inlined(p, t, scope) matches Ok(u) ==> inlined(p, u, scope) == Ok::<
            TemplateView,
            CompileErrorView,
        >(u),
{
    if has_no_vars(t) {
        lemma_inlined_same(p, t, t.parts, scope, Seq::empty());
    }
    if let Ok(u) = inlined(p, t, scope) {
        law_inlined_has_no_vars(p, t, scope);
        lemma_inlined_same(p, u, u.parts, scope, Seq::empty());
    }
}

// ── Lowering ─────────────────────────────────────────────────────────────────

/// A template without variables in the execution form.
pub open spec fn lowered(t: TemplateView) -> ir::TemplateView
    decreases t,
{
    ir::TemplateView { parts: lowered_parts(t.parts) }
}

pub open spec fn lowered_parts(parts: Seq<PartView>) -> Seq<ir::SegmentView>
    decreases parts,
{
    if parts.len() == 0 {
        Seq::empty()
    } else {
        lowered_parts(parts.drop_last()).push(
            match parts.last() {
                PartView::Lit(s) => ir::SegmentView::Lit(s),
                PartView::Cmd(inner) => ir::SegmentView::Cmd(lowered(inner)),
                PartView::Var(_) => arbitrary(),
            },
        )
    }
}

pub(crate) proof fn lemma_no_vars_at(parts: Seq<PartView>, n: int)
    requires
        parts_have_no_vars(parts),
        0 <= n < parts.len(),
    ensures
        match parts[n] {
            PartView::Lit(_) => true,
            PartView::Var(_) => false,
            PartView::Cmd(inner) => has_no_vars(inner),
        },
    decreases parts.len(),
{
    if n < parts.len() - 1 {
        lemma_no_vars_at(parts.drop_last(), n);
    }
}

/// Turn a template without variables into its execution form.
pub fn lower_template(tmpl: &Template) -> (r: ir::Template)
    requires
        has_no_vars(tmpl@),
    ensures
        r@ == lowered(tmpl@),
    decreases tmpl,
{
    let mut parts: Vec<ir::Segment> = Vec::new();
    let ghost views = tmpl@.parts;
    let mut i: usize = 0;
    proof {
        assert(views.take(0) =~= Seq::<PartView>::empty());
        assert(ir::segment_views(parts@) =~= Seq::<ir::SegmentView>::empty());
    }
    while i < tmpl.parts.len()
        invariant
            i <= tmpl.parts@.len(),
            views == tmpl@.parts,
            parts_have_no_vars(views),
            ir::segment_views(parts@) == lowered_parts(views.take(i as int)),
        decreases tmpl.parts@.len() - i,
    {
        let ghost part = tmpl.parts@[i as int];
        let ghost before = ir::segment_views(parts@);
        proof {
            let next = views.take(i + 1);
            assert(next.drop_last() =~= views.take(i as int));
            assert(next.last() == part@);
            assert(decreases_to!(tmpl.parts@ => tmpl.parts@[i as int]));
            lemma_no_vars_at(views, i as int);
        }
        match &tmpl.parts[i] {
            Part::Lit(s) => {
                parts.push(ir::Segment::Lit(s.clone()));
            },
            Part::Cmd(inner) => {
                assert(decreases_to!(part => part->Cmd_0));
                parts.push(ir::Segment::Cmd(lower_template(inner)));
            },
            Part::Var(_) => {},
        }
        assert(ir::segment_views(parts@) =~= before.push(parts@.last()@));
        i += 1;
    }
    assert(views.take(i as int) =~= views);
    let r = ir::Template { parts };
    assert(r@.parts =~= ir::segment_views(parts@));
    r
}

/// A template with its variables replaced, in the execution form.
pub open spec fn compiled(p: Place, t: TemplateView, scope: Entries<TemplateView>) -> Result<
    ir::TemplateView,
    CompileErrorView,
> {
    match inlined(p, t, scope) {
        Err(e) => Err(e),
        Ok(u) => Ok(lowered(u)),
    }
}

fn compile_template(
    tmpl: &Template,
    scope: &NameMap<Template>,
    sources: &NameMap<String>,
    source_name: &str,
) -> (r: Result<ir::Template, CompileError>)
    ensures
        compiled(
            Place { sources: sources@, source_name: source_name@ },
            tmpl@,
            scope_view(scope@),
        ) == match r {
            Ok(t) => Ok::<ir::TemplateView, CompileErrorView>(t@),
            Err(e) => Err(e@),
        },
{
    match inline_dsl_template(tmpl, scope, sources, source_name) {
        Err(e) => Err(e),
        Ok(t) => {
            proof {
                law_inlined_has_no_vars(
                    Place { sources: sources@, source_name: source_name@ },
                    tmpl@,
                    scope_view(scope@),
                );
            }
            Ok(lower_template(&t))
        },
    }
}

/// Variables of an `env` block in the execution form.
pub open spec fn compiled_pairs(
    p: Place,
    pairs: Seq<EnvPairView>,
    scope: Entries<TemplateView>,
) -> Result<Seq<ir::EnvPairView>, CompileErrorView>
    decreases pairs.len(),
{
    if pairs.len() == 0 {
        Ok(Seq::empty())
    } else {
        match compiled_pairs(p, pairs.drop_last(), scope) {
            Err(e) => Err(e),
            Ok(before) => match compiled(p, pairs.last().value, scope) {
                Err(e) => Err(e),
                Ok(value) => Ok(before.push(ir::EnvPairView { key: pairs.last().key, value })),
            },
        }
    }
}

/// The statements of a function in the execution form, and the variables that
/// are known after them. A block sees the variables before it, and those that
/// it binds are not seen outside.
pub open spec fn compiled_body(
    p: Place,
    body: Seq<FnStmtView>,
    scope: Entries<TemplateView>,
) -> Result<(Seq<ir::InstructionView>, Entries<TemplateView>), CompileErrorView>
    decreases body,
{
    if body.len() == 0 {
        Ok((Seq::empty(), scope))
    } else {
        match compiled_body(p, body.drop_last(), scope) {
            Err(e) => Err(e),
            Ok((before, known)) => match compiled_stmt(p, body.last(), known) {
                Err(e) => Err(e),
                Ok((inst, after)) => Ok((before.push(inst), after)),
            },
        }
    }
}

pub open spec fn compiled_stmt(p: Place, s: FnStmtView, scope: Entries<TemplateView>) -> Result<
    (ir::InstructionView, Entries<TemplateView>),
    CompileErrorView,
>
    decreases s,
{
    match s {
        FnStmtView::Log(t) => match compiled(p, t, scope) {
            Err(e) => Err(e),
            Ok(value) => Ok((ir::InstructionView::Log(value), scope)),
        },
        FnStmtView::Cd(t) => match compiled(p, t, scope) {
            Err(e) => Err(e),
            Ok(value) => Ok((ir::InstructionView::Cd(value), scope)),
        },
        FnStmtView::Bind { target, value } => match inlined(p, value, scope) {
            Err(e) => Err(e),
            Ok(u) => Ok(
                (
                    ir::InstructionView::Exec { command: lowered(u) },
                    match target {
                        Some(name) => crate::names::insert_entry(scope, name, u),
                        None => scope,
                    },
                ),
            ),
        },
        FnStmtView::EnvBlock { pairs, body } => match compiled_pairs(p, pairs, scope) {
            Err(e) => Err(e),
            Ok(pairs) => match compiled_body(p, body, scope) {
                Err(e) => Err(e),
                Ok((body, _)) => Ok((ir::InstructionView::Env { pairs, body }, scope)),
            },
        },
        FnStmtView::Switch { subject, arms } => match compiled(p, subject, scope) {
            Err(e) => Err(e),
            Ok(subject) => match compiled_arms(p, arms, scope) {
                Err(e) => Err(e),
                Ok(arms) => Ok((ir::InstructionView::Switch { subject, arms }, scope)),
            },
        },
    }
}

pub open spec fn compiled_arms(p: Place, arms: Seq<ArmView>, scope: Entries<TemplateView>) -> Result<
    Seq<ir::ArmView>,
    CompileErrorView,
>
    decreases arms,
{
    if arms.len() == 0 {
        Ok(Seq::empty())
    } else {
        match compiled_arms(p, arms.drop_last(), scope) {
            Err(e) => Err(e),
            Ok(before) => match compiled_body(p, arms.last().body, scope) {
                Err(e) => Err(e),
                Ok((body, _)) => Ok(
                    before.push(ir::ArmView { row: 0, pattern: arms.last().pattern, body }),
                ),
            },
        }
    }
}

proof fn lemma_pairs_error(p: Place, pairs: Seq<EnvPairView>, scope: Entries<TemplateView>, n: int)
    requires
        0 <= n <= pairs.len(),
        compiled_pairs(p, pairs.take(n), scope) is Err,
    ensures
        compiled_pairs(p, pairs, scope) == compiled_pairs(p, pairs.take(n), scope),
    decreases pairs.len(),
{
    if n < pairs.len() {
        assert(pairs.drop_last().take(n) =~= pairs.take(n));
        lemma_pairs_error(p, pairs.drop_last(), scope, n);
    } else {
        assert(pairs.take(n) =~= pairs);
    }
}

proof fn lemma_body_error(p: Place, body: Seq<FnStmtView>, scope: Entries<TemplateView>, n: int)
    requires
        0 <= n <= body.len(),
        compiled_body(p, body.take(n), scope) is Err,
    ensures
        compiled_body(p, body, scope) == compiled_body(p, body.take(n), scope),
    decreases body.len(),
{
    if n < body.len() {
        assert(body.drop_last().take(n) =~= body.take(n));
        lemma_body_error(p, body.drop_last(), scope, n);
    } else {
        assert(body.take(n) =~= body);
    }
}

proof fn lemma_arms_error(p: Place, arms: Seq<ArmView>, scope: Entries<TemplateView>, n: int)
    requires
        0 <= n <= arms.len(),
        compiled_arms(p, arms.take(n), scope) is Err,
    ensures
        compiled_arms(p, arms, scope) == compiled_arms(p, arms.take(n), scope),
    decreases arms.len(),
{
    if n < arms.len() {
        assert(arms.drop_last().take(n) =~= arms.take(n));
        lemma_arms_error(p, arms.drop_last(), scope, n);
    } else {
        assert(arms.take(n) =~= arms);
    }
}

/// A copy of the known variables.
pub fn copy_scope(scope: &NameMap<Template>) -> (r: NameMap<Template>)
    ensures
        scope_view(r@) == scope_view(scope@),
{
    let mut r: NameMap<Template> = NameMap::new();
    let n: usize = scope.len();
    let ghost views = scope_view(scope@);
    let mut i: usize = 0;
    assert(scope_view(r@) =~= views.take(0));
    while i < n
        invariant
            i <= n == scope@.len(),
            views == scope_view(scope@),
            crate::names::ascending(scope@),
            scope_view(r@) == views.take(i as int),
        decreases n - i,
    {
        let name = scope.name_at(i).to_owned();
        let value = scope.value_at(i).duplicate();
        proof {
            let done = views.take(i as int);
            assert forall|k: int| 0 <= k < done.len() implies crate::names::name_lt(
                #[trigger] done[k].0,
                name@,
            ) by {
                assert(crate::names::name_lt(scope@[k].0, scope@[i as int].0));
            }
            crate::names::lemma_map_insert(r@, template_viewer(), name@, value);
            crate::names::lemma_insert_at_end(done, name@, value@);
            assert(done.push((name@, value@)) =~= views.take(i + 1));
        }
        r.insert(name, value);
        i += 1;
    }
    assert(views.take(i as int) =~= views);
    r
}

fn copy_pattern(p: &ArmPattern) -> (r: ArmPattern)
    ensures
        r@ == p@,
{
    match p {
        ArmPattern::Lit(s) => ArmPattern::Lit(s.clone()),
        ArmPattern::Default => ArmPattern::Default,
    }
}

fn lower_pairs(
    pairs: &Vec<EnvPair>,
    scope: &NameMap<Template>,
    sources: &NameMap<String>,
    source_name: &str,
) -> (r: Result<Vec<ir::EnvPair>, CompileError>)
    ensures
        compiled_pairs(
            Place { sources: sources@, source_name: source_name@ },
            pair_views(pairs@),
            scope_view(scope@),
        ) == match r {
            Ok(v) => Ok::<Seq<ir::EnvPairView>, CompileErrorView>(ir::pair_views(v@)),
            Err(e) => Err(e@),
        },
{
    let ghost p = Place { sources: sources@, source_name: source_name@ };
    let ghost views = pair_views(pairs@);
    let ghost sc = scope_view(scope@);
    let mut out: Vec<ir::EnvPair> = Vec::new();
    let mut i: usize = 0;
    proof {
        assert(views.take(0) =~= Seq::<EnvPairView>::empty());
        assert(ir::pair_views(out@) =~= Seq::<ir::EnvPairView>::empty());
    }
    while i < pairs.len()
        invariant
            i <= pairs@.len(),
            p == (Place { sources: sources@, source_name: source_name@ }),
            views == pair_views(pairs@),
            sc == scope_view(scope@),
            compiled_pairs(p, views.take(i as int), sc) == Ok::<
                Seq<ir::EnvPairView>,
                CompileErrorView,
            >(ir::pair_views(out@)),
        decreases pairs@.len() - i,
    {
        let ghost next = views.take(i + 1);
        let ghost before = ir::pair_views(out@);
        proof {
            assert(next.drop_last() =~= views.take(i as int));
            assert(next.last() == pairs@[i as int]@);
            if compiled_pairs(p, next, sc) is Err {
                lemma_pairs_error(p, views, sc, i + 1);
            }
        }
        match compile_template(&pairs[i].value, scope, sources, source_name) {
            Err(e) => {
                return Err(e);
            },
            Ok(value) => {
                out.push(ir::EnvPair { key: pairs[i].key.clone(), value });
                assert(ir::pair_views(out@) =~= before.push(out@.last()@));
            },
        }
        i += 1;
    }
    assert(views.take(i as int) =~= views);
    Ok(out)
}

fn lower_arms(
    arms: &Vec<Arm>,
    scope: &NameMap<Template>,
    sources: &NameMap<String>,
    source_name: &str,
) -> (r: Result<Vec<ir::Arm>, CompileError>)
    ensures
        compiled_arms(
            Place { sources: sources@, source_name: source_name@ },
            arm_views(arms@),
            scope_view(scope@),
        ) == match r {
            Ok(v) => Ok::<Seq<ir::ArmView>, CompileErrorView>(ir::arm_views(v@)),
            Err(e) => Err(e@),
        },
    decreases arms,
{
    let ghost p = Place { sources: sources@, source_name: source_name@ };
    let ghost views = arm_views(arms@);
    let ghost sc = scope_view(scope@);
    let mut out: Vec<ir::Arm> = Vec::new();
    let mut i: usize = 0;
    proof {
        assert(views.take(0) =~= Seq::<ArmView>::empty());
        assert(ir::arm_views(out@) =~= Seq::<ir::ArmView>::empty());
    }
    while i < arms.len()
        invariant
            i <= arms@.len(),
            p == (Place { sources: sources@, source_name: source_name@ }),
            views == arm_views(arms@),
            sc == scope_view(scope@),
            compiled_arms(p, views.take(i as int), sc) == Ok::<
                Seq<ir::ArmView>,
                CompileErrorView,
            >(ir::arm_views(out@)),
        decreases arms@.len() - i,
    {
        let ghost next = views.take(i + 1);
        let ghost before = ir::arm_views(out@);
        proof {
            assert(next.drop_last() =~= views.take(i as int));
            assert(next.last() == arms@[i as int]@);
            assert(arms@[i as int]@.body =~= fn_stmt_views(arms@[i as int].body@));
            assert(decreases_to!(arms@ => arms@[i as int]));
            assert(decreases_to!(arms@[i as int] => arms@[i as int].body));
            if compiled_arms(p, next, sc) is Err {
                lemma_arms_error(p, views, sc, i + 1);
            }
        }
        let mut inner = copy_scope(scope);
        match lower_fn_stmts(&arms[i].body, &mut inner, sources, source_name) {
            Err(e) => {
                return Err(e);
            },
            Ok(body) => {
                let arm = ir::Arm { row: 0, pattern: copy_pattern(&arms[i].pattern), body };
                proof {
                    assert(arm@.body =~= ir::instruction_views(body@));
                }
                out.push(arm);
                assert(ir::arm_views(out@) =~= before.push(arm@));
            },
        }
        i += 1;
    }
    assert(views.take(i as int) =~= views);
    Ok(out)
}

fn lower_fn_stmt(
    stmt: &FnStmt,
    scope: &mut NameMap<Template>,
    sources: &NameMap<String>,
    source_name: &str,
) -> (r: Result<ir::Instruction, CompileError>)
    ensures
        match r {
            Ok(inst) => compiled_stmt(
                Place { sources: sources@, source_name: source_name@ },
                stmt@,
                scope_view(old(scope)@),
            ) == Ok::<(ir::InstructionView, Entries<TemplateView>), CompileErrorView>(
                (inst@, scope_view(final(scope)@)),
            ),
            Err(e) => compiled_stmt(
                Place { sources: sources@, source_name: source_name@ },
                stmt@,
                scope_view(old(scope)@),
            ) == Err::<(ir::InstructionView, Entries<TemplateView>), CompileErrorView>(e@),
        },
    decreases stmt,
{
    match stmt {
        FnStmt::Log(t) => match compile_template(t, scope, sources, source_name) {
            Ok(value) => Ok(ir::Instruction::Log(value)),
            Err(e) => Err(e),
        },
        FnStmt::Cd(t) => match compile_template(t, scope, sources, source_name) {
            Ok(value) => Ok(ir::Instruction::Cd(value)),
            Err(e) => Err(e),
        },
        FnStmt::Bind { target, value } => {
            let inlined = match inline_dsl_template(value, scope, sources, source_name) {
                Ok(t) => t,
                Err(e) => {
                    return Err(e);
                },
            };
            proof {
                law_inlined_has_no_vars(
                    Place { sources: sources@, source_name: source_name@ },
                    value@,
                    scope_view(scope@),
                );
            }
            let command = lower_template(&inlined);
            if let Some(name) = target {
                proof {
                    crate::names::lemma_map_insert(scope@, template_viewer(), name@, inlined);
                }
                scope.insert(name.clone(), inlined);
            }
            Ok(ir::Instruction::Exec { command })
        },
        FnStmt::EnvBlock { pairs, body } => {
            assert(stmt@->EnvBlock_body =~= fn_stmt_views(body@));
            let pairs = match lower_pairs(pairs, scope, sources, source_name) {
                Ok(v) => v,
                Err(e) => {
                    return Err(e);
                },
            };
            let mut inner = copy_scope(scope);
            match lower_fn_stmts(body, &mut inner, sources, source_name) {
                Ok(body) => {
                    let inst = ir::Instruction::Env { pairs, body };
                    assert(inst@->Env_body =~= ir::instruction_views(body@));
                    Ok(inst)
                },
                Err(e) => Err(e),
            }
        },
        FnStmt::Switch { subject, arms } => {
            assert(stmt@->Switch_arms =~= arm_views(arms@));
            let subject = match compile_template(subject, scope, sources, source_name) {
                Ok(t) => t,
                Err(e) => {
                    return Err(e);
                },
            };
            match lower_arms(arms, scope, sources, source_name) {
                Ok(arms) => {
                    let inst = ir::Instruction::Switch { subject, arms };
                    assert(inst@->Switch_arms =~= ir::arm_views(arms@));
                    Ok(inst)
                },
                Err(e) => Err(e),
            }
        },
    }
}

/// Lower statements one after the other. What they bind is added to the scope.
fn lower_fn_stmts(
    stmts: &Vec<FnStmt>,
    scope: &mut NameMap<Template>,
    sources: &NameMap<String>,
    source_name: &str,
) -> (r: Result<Vec<ir::Instruction>, CompileError>)
    ensures
        match r {
            Ok(v) => compiled_body(
                Place { sources: sources@, source_name: source_name@ },
                fn_stmt_views(stmts@),
                scope_view(old(scope)@),
            ) == Ok::<(Seq<ir::InstructionView>, Entries<TemplateView>), CompileErrorView>(
                (ir::instruction_views(v@), scope_view(final(scope)@)),
            ),
            Err(e) => compiled_body(
                Place { sources: sources@, source_name: source_name@ },
                fn_stmt_views(stmts@),
                scope_view(old(scope)@),
            ) == Err::<(Seq<ir::InstructionView>, Entries<TemplateView>), CompileErrorView>(e@),
        },
    decreases stmts,
{
    let ghost p = Place { sources: sources@, source_name: source_name@ };
    let ghost views = fn_stmt_views(stmts@);
    let ghost first = scope_view(scope@);
    let mut out: Vec<ir::Instruction> = Vec::new();
    let mut i: usize = 0;
    proof {
        assert(views.take(0) =~= Seq::<FnStmtView>::empty());
        assert(ir::instruction_views(out@) =~= Seq::<ir::InstructionView>::empty());
    }
    while i < stmts.len()
        invariant
            i <= stmts@.len(),
            p == (Place { sources: sources@, source_name: source_name@ }),
            views == fn_stmt_views(stmts@),
            first == scope_view(old(scope)@),
            compiled_body(p, views.take(i as int), first) == Ok::<
                (Seq<ir::InstructionView>, Entries<TemplateView>),
                CompileErrorView,
            >((ir::instruction_views(out@), scope_view(scope@))),
        decreases stmts@.len() - i,
    {
        let ghost next = views.take(i + 1);
        let ghost before = ir::instruction_views(out@);
        proof {
            assert(next.drop_last() =~= views.take(i as int));
            assert(next.last() == stmts@[i as int]@);
            assert(decreases_to!(stmts@ => stmts@[i as int]));
            if compiled_body(p, next, first) is Err {
                lemma_body_error(p, views, first, i + 1);
            }
        }
        match lower_fn_stmt(&stmts[i], scope, sources, source_name) {
            Err(e) => {
                return Err(e);
            },
            Ok(inst) => {
                out.push(inst);
                assert(ir::instruction_views(out@) =~= before.push(inst@));
            },
        }
        i += 1;
    }
    assert(views.take(i as int) =~= views);
    Ok(out)
}

/// Lower the body of a function.
pub fn lower_function_body(
    stmts: &Vec<FnStmt>,
    static_scope: &NameMap<Template>,
    sources: &NameMap<String>,
    source_name: &str,
) -> (r: Result<Vec<ir::Instruction>, CompileError>)
    ensures
        match r {
            Ok(v) => compiled_body(
                Place { sources: sources@, source_name: source_name@ },
                fn_stmt_views(stmts@),
                scope_view(static_scope@),
            ) matches Ok((body, _)) && body == ir::instruction_views(v@),
            Err(e) => compiled_body(
                Place { sources: sources@, source_name: source_name@ },
                fn_stmt_views(stmts@),
                scope_view(static_scope@),
            ) == Err::<(Seq<ir::InstructionView>, Entries<TemplateView>), CompileErrorView>(e@),
        },
{
    let mut local = copy_scope(static_scope);
    lower_fn_stmts(stmts, &mut local, sources, source_name)
}

} // verus!
