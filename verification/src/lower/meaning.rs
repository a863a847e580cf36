//! What compiling is for: what each declaration and statement becomes.
use vstd::prelude::*;
use crate::dsl::ast::ProjectField;
use crate::ir;
use crate::lower::finish::{ir_of_state, scope_closed};
use crate::lower::inline::{
    compiled_arms, compiled_body, compiled_pairs, compiled_stmt, has_no_vars, inlined, inlined_from,
    inlined_parts, lemma_inlined_same, lowered, lowered_parts, Place,
};
use crate::lower::stmt::{
    literal_parts, literal_text,    with_field, with_fields, with_item, with_items, with_project_body, with_project_fields,
    with_run, with_shell, with_timeout, with_var, with_vars, PendingProjectView, PendingSyncView,
    StateView,
};
use crate::lower::CompileErrorView;
use crate::names::{
    ascending, insert_entry, law_insert_keeps_ascending, law_insert_then_lookup, lookup, Entries,
};
use crate::plan::CallView;
use crate::syntax::{
    ArmView, EnvPairView, FnStmtView, PartView, StmtView, TemplateView,
};

verus! {

broadcast use vstd::string::group_string_axioms;

// ── Templates ────────────────────────────────────────────────────────────────

pub open spec fn with_parts(t: TemplateView, parts: Seq<PartView>) -> TemplateView {
    TemplateView { parts, ..t }
}

proof fn lemma_from_join(
    p: Place,
    t: TemplateView,
    a: Seq<PartView>,
    b: Seq<PartView>,
    scope: Entries<TemplateView>,
)
    ensures
        inlined_from(p, t, a + b, scope, Seq::empty()) == match (
            inlined_from(p, t, a, scope, Seq::empty()),
            inlined_from(p, t, b, scope, Seq::empty()),
        ) {
            (Err(e), _) => Err(e),
            (Ok(_), Err(e)) => Err(e),
            (Ok(x), Ok(y)) => Ok(x + y),
        },
    decreases b.len(),
{
    let none = Seq::<Seq<char>>::empty();
    if b.len() == 0 {
        assert(a + b =~= a);
        match inlined_from(p, t, a, scope, none) {
            Ok(x) => {
                assert(x + Seq::<PartView>::empty() =~= x);
            },
            Err(_) => {},
        }
    } else {
        lemma_from_join(p, t, a, b.drop_last(), scope);
        assert((a + b).drop_last() =~= a + b.drop_last());
        assert((a + b).last() == b.last());
        match (
            inlined_from(p, t, a, scope, none),
            inlined_from(p, t, b.drop_last(), scope, none),
        ) {
            (Ok(x), Ok(y)) => {
                assert forall|z: PartView| #[trigger] (x + y).push(z) == x + y.push(z) by {
                    assert((x + y).push(z) =~= x + y.push(z));
                }
                assert forall|z: Seq<PartView>| #[trigger] (x + y + z) == x + (y + z) by {
                    assert(x + y + z =~= x + (y + z));
                }
            },
            _ => {},
        }
    }
}

/// The pieces of a template are inlined one after another: a template that is
/// put together from pieces becomes what the pieces become, and is refused just
/// where one of them is.
pub proof fn law_inlining_goes_piece_by_piece(
    p: Place,
    t: TemplateView,
    a: Seq<PartView>,
    b: Seq<PartView>,
    scope: Entries<TemplateView>,
)
    ensures
        inlined(p, with_parts(t, a + b), scope) == match (
            inlined(p, with_parts(t, a), scope),
            inlined(p, with_parts(t, b), scope),
        ) {
            (Err(e), _) => Err(e),
            (Ok(_), Err(e)) => Err(e),
            (Ok(x), Ok(y)) => Ok(with_parts(t, x.parts + y.parts)),
        },
{
    lemma_from_place(p, t, with_parts(t, a + b), a + b, scope);
    lemma_from_place(p, t, with_parts(t, a), a, scope);
    lemma_from_place(p, t, with_parts(t, b), b, scope);
    lemma_from_join(p, t, a, b, scope);
}

/// Of a template only its place matters for the errors about its pieces.
proof fn lemma_from_place(
    p: Place,
    t: TemplateView,
    u: TemplateView,
    parts: Seq<PartView>,
    scope: Entries<TemplateView>,
)
    requires
        t.offset == u.offset,
        t.len == u.len,
    ensures
        inlined_from(p, t, parts, scope, Seq::empty()) == inlined_from(
            p,
            u,
            parts,
            scope,
            Seq::empty(),
        ),
    decreases parts.len(),
{
    if parts.len() > 0 {
        lemma_from_place(p, t, u, parts.drop_last(), scope);
    }
}

/// What one piece of a template becomes: a text stays, a variable gives way to
/// the pieces of its value, and a command keeps its place with its own text
/// inlined. A variable that is not known is refused.
pub proof fn law_what_a_piece_becomes(
    p: Place,
    t: TemplateView,
    part: PartView,
    scope: Entries<TemplateView>,
)
    requires
        scope_closed(scope),
    ensures
        ({
            let r = inlined(p, with_parts(t, seq![part]), scope);
            match part {
                PartView::Lit(_) => r == Ok::<TemplateView, CompileErrorView>(
                    with_parts(t, seq![part]),
                ),
                PartView::Var(name) => match lookup(scope, name) {
                    Some(value) => r == Ok::<TemplateView, CompileErrorView>(
                        with_parts(t, value.parts),
                    ),
                    None => r is Err,
                },
                PartView::Cmd(inner) => match inlined(p, inner, scope) {
                    Ok(u) => r == Ok::<TemplateView, CompileErrorView>(
                        with_parts(t, seq![PartView::Cmd(u)]),
                    ),
                    Err(e) => r == Err::<TemplateView, CompileErrorView>(e),
                },
            }
        }),
{
    let one = seq![part];
    let u = with_parts(t, one);
    let none = Seq::<Seq<char>>::empty();
    assert(one.drop_last() =~= Seq::<PartView>::empty());
    assert(inlined_from(p, u, one.drop_last(), scope, none) == Ok::<
        Seq<PartView>,
        CompileErrorView,
    >(Seq::empty()));
    let first = Seq::<PartView>::empty();
    match part {
        PartView::Lit(_) => {
            assert(first.push(part) =~= one);
        },
        PartView::Var(name) => {
            assert(!none.contains(name));
            match lookup(scope, name) {
                Some(value) => {
                    lemma_known(scope, name);
                    lemma_inlined_same(p, value, value.parts, scope, none.push(name));
                    assert(inlined_parts(p, value, scope, none.push(name)) == Ok::<
                        Seq<PartView>,
                        CompileErrorView,
                    >(value.parts));
                    assert(first + value.parts =~= value.parts);
                },
                None => {},
            }
        },
        PartView::Cmd(inner) => {
            match inlined(p, inner, scope) {
                Ok(v) => {
                    assert(first.push(PartView::Cmd(v)) =~= seq![PartView::Cmd(v)]);
                },
                Err(_) => {},
            }
        },
    }
}

proof fn lemma_known(scope: Entries<TemplateView>, name: Seq<char>)
    requires
        scope_closed(scope),
        lookup(scope, name) is Some,
    ensures
        has_no_vars(lookup(scope, name)->0),
        scope.len() > 0,
    decreases scope.len(),
{
    if scope.last().0 != name {
        let init = scope.drop_last();
        assert forall|i: int| 0 <= i < init.len() implies has_no_vars((#[trigger] init[i]).1) by {
            assert(init[i] == scope[i]);
        }
        lemma_known(init, name);
    } else {
        assert(scope[scope.len() - 1] == scope.last());
    }
}

/// Lowering keeps the pieces of a template: as many, each a text or a command as
/// it was.
pub proof fn law_lowering_keeps_the_pieces(t: TemplateView, i: int)
    requires
        0 <= i < t.parts.len(),
    ensures
        lowered(t).parts.len() == t.parts.len(),
        t.parts[i] matches PartView::Lit(s) ==> lowered(t).parts[i] == ir::SegmentView::Lit(s),
        t.parts[i] matches PartView::Cmd(u) ==> lowered(t).parts[i] == ir::SegmentView::Cmd(
            lowered(u),
        ),
{
    lemma_lowered_at(t.parts, i);
}

proof fn lemma_lowered_at(parts: Seq<PartView>, i: int)
    requires
        0 <= i < parts.len(),
    ensures
        lowered_parts(parts).len() == parts.len(),
        parts[i] matches PartView::Lit(s) ==> lowered_parts(parts)[i] == ir::SegmentView::Lit(s),
        parts[i] matches PartView::Cmd(u) ==> lowered_parts(parts)[i] == ir::SegmentView::Cmd(
            lowered(u),
        ),
    decreases parts.len(),
{
    lemma_lowered_len(parts.drop_last());
    if i < parts.len() - 1 {
        assert(parts.drop_last()[i] == parts[i]);
        lemma_lowered_at(parts.drop_last(), i);
    }
}

proof fn lemma_lowered_len(parts: Seq<PartView>)
    ensures
        lowered_parts(parts).len() == parts.len(),
    decreases parts.len(),
{
    if parts.len() > 0 {
        lemma_lowered_len(parts.drop_last());
    }
}

// ── Statements ───────────────────────────────────────────────────────────────

/// Whether a template of the execution form is what a template stands for: with
/// each variable replaced by its value.
pub open spec fn stands_for(
    p: Place,
    value: ir::TemplateView,
    t: TemplateView,
    scope: Entries<TemplateView>,
) -> bool {
    inlined(p, t, scope) matches Ok(u) && value == lowered(u)
}

/// Whether the variables of a compiled block are those of the block: as many,
/// in order, each with its key and its value.
pub open spec fn sets_the_same(
    p: Place,
    out: Seq<ir::EnvPairView>,
    pairs: Seq<EnvPairView>,
    scope: Entries<TemplateView>,
) -> bool {
    out.len() == pairs.len() && forall|i: int|
        0 <= i < pairs.len() ==> (#[trigger] out[i]).key == pairs[i].key && stands_for(
            p,
            out[i].value,
            pairs[i].value,
            scope,
        )
}

proof fn lemma_pairs(p: Place, pairs: Seq<EnvPairView>, scope: Entries<TemplateView>)
    ensures
        compiled_pairs(p, pairs, scope) matches Ok(out) ==> sets_the_same(p, out, pairs, scope),
    decreases pairs.len(),
{
    if pairs.len() > 0 {
        let init = pairs.drop_last();
        lemma_pairs(p, init, scope);
        match compiled_pairs(p, pairs, scope) {
            Ok(out) => {
                let before = compiled_pairs(p, init, scope)->Ok_0;
                assert forall|i: int| 0 <= i < pairs.len() implies (#[trigger] out[i]).key
                    == pairs[i].key && stands_for(p, out[i].value, pairs[i].value, scope) by {
                    if i < init.len() {
                        assert(out[i] == before[i]);
                        assert(init[i] == pairs[i]);
                    }
                }
            },
            Err(_) => {},
        }
    }
}

/// Whether compiled arms are those of a switch: as many, in order, each with its
/// pattern and its body.
pub open spec fn same_arms(
    p: Place,
    out: Seq<ir::ArmView>,
    arms: Seq<ArmView>,
    scope: Entries<TemplateView>,
) -> bool {
    out.len() == arms.len() && forall|i: int|
        0 <= i < arms.len() ==> (#[trigger] out[i]).pattern == arms[i].pattern && (compiled_body(
            p,
            arms[i].body,
            scope,
        ) matches Ok((body, _)) && out[i].body == body)
}

proof fn lemma_arms(p: Place, arms: Seq<ArmView>, scope: Entries<TemplateView>)
    ensures
        compiled_arms(p, arms, scope) matches Ok(out) ==> same_arms(p, out, arms, scope),
    decreases arms.len(),
{
    if arms.len() > 0 {
        let init = arms.drop_last();
        lemma_arms(p, init, scope);
        match compiled_arms(p, arms, scope) {
            Ok(out) => {
                let before = compiled_arms(p, init, scope)->Ok_0;
                assert forall|i: int| 0 <= i < arms.len() implies (#[trigger] out[i]).pattern
                    == arms[i].pattern && (compiled_body(p, arms[i].body, scope) matches Ok((
                    body,
                    _,
                )) && out[i].body == body) by {
                    if i < init.len() {
                        assert(out[i] == before[i]);
                        assert(init[i] == arms[i]);
                    }
                }
            },
            Err(_) => {},
        }
    }
}

/// What a statement becomes: a log, a change of directory and a command keep
/// their template with its variables replaced; a block keeps its variables, each
/// with its key and its value, and its body; a switch keeps its subject and its
/// arms. Only a bound value is known afterwards, under its name.
pub proof fn law_what_a_statement_becomes(p: Place, s: FnStmtView, scope: Entries<TemplateView>)
    ensures
        compiled_stmt(p, s, scope) matches Ok((inst, after)) ==> match s {
            FnStmtView::Log(t) => after == scope && (inst matches ir::InstructionView::Log(v)
                && stands_for(p, v, t, scope)),
            FnStmtView::Cd(t) => after == scope && (inst matches ir::InstructionView::Cd(v)
                && stands_for(p, v, t, scope)),
            FnStmtView::Bind { target, value } => (inst matches ir::InstructionView::Exec {
                command,
            } && stands_for(p, command, value, scope)) && (match target {
                None => after == scope,
                Some(name) => inlined(p, value, scope) matches Ok(u) && after == insert_entry(
                    scope,
                    name,
                    u,
                ),
            }),
            FnStmtView::EnvBlock { pairs, body } => after == scope && (inst matches
                ir::InstructionView::Env { pairs: out, body: inner } && sets_the_same(
                p,
                out,
                pairs,
                scope,
            ) && (compiled_body(p, body, scope) matches Ok((b, _)) && inner == b)),
            FnStmtView::Switch { subject, arms } => after == scope && (inst matches
                ir::InstructionView::Switch { subject: v, arms: out } && stands_for(
                p,
                v,
                subject,
                scope,
            ) && same_arms(p, out, arms, scope)),
        },
{
    match s {
        FnStmtView::EnvBlock { pairs, .. } => {
            lemma_pairs(p, pairs, scope);
        },
        FnStmtView::Switch { arms, .. } => {
            lemma_arms(p, arms, scope);
        },
        _ => {},
    }
}

/// Statements become instructions one for one and in order, each with the
/// variables known that were bound before it; what does not compile is refused.
pub proof fn law_statements_are_compiled_in_order(
    p: Place,
    body: Seq<FnStmtView>,
    last: FnStmtView,
    scope: Entries<TemplateView>,
)
    ensures
        compiled_body(p, Seq::empty(), scope) == Ok::<
            (Seq<ir::InstructionView>, Entries<TemplateView>),
            CompileErrorView,
        >((Seq::empty(), scope)),
        compiled_body(p, body.push(last), scope) == match compiled_body(p, body, scope) {
            Err(e) => Err(e),
            Ok((before, known)) => match compiled_stmt(p, last, known) {
                Err(e) => Err(e),
                Ok((inst, after)) => Ok((before.push(inst), after)),
            },
        },
        compiled_body(p, body, scope) matches Ok((out, _)) ==> out.len() == body.len(),
{
    assert(body.push(last).drop_last() =~= body);
    lemma_body_len(p, body, scope);
}

proof fn lemma_body_len(p: Place, body: Seq<FnStmtView>, scope: Entries<TemplateView>)
    ensures
        compiled_body(p, body, scope) matches Ok((out, _)) ==> out.len() == body.len(),
    decreases body.len(),
{
    if body.len() > 0 {
        lemma_body_len(p, body.drop_last(), scope);
    }
}

/// A statement compiles just where its parts do.
pub proof fn law_what_compiles(p: Place, s: FnStmtView, scope: Entries<TemplateView>)
    ensures
        compiled_stmt(p, s, scope) is Ok <==> match s {
            FnStmtView::Log(t) => inlined(p, t, scope) is Ok,
            FnStmtView::Cd(t) => inlined(p, t, scope) is Ok,
            FnStmtView::Bind { value, .. } => inlined(p, value, scope) is Ok,
            FnStmtView::EnvBlock { pairs, body } => compiled_body(p, body, scope) is Ok && forall|
                i: int,
            | 0 <= i < pairs.len() ==> inlined(p, (#[trigger] pairs[i]).value, scope) is Ok,
            FnStmtView::Switch { subject, arms } => inlined(p, subject, scope) is Ok && forall|
                i: int,
            | 0 <= i < arms.len() ==> compiled_body(p, (#[trigger] arms[i]).body, scope) is Ok,
        },
{
    match s {
        FnStmtView::EnvBlock { pairs, .. } => {
            lemma_pairs_compile(p, pairs, scope);
        },
        FnStmtView::Switch { arms, .. } => {
            lemma_arms_compile(p, arms, scope);
        },
        _ => {},
    }
}

proof fn lemma_pairs_compile(p: Place, pairs: Seq<EnvPairView>, scope: Entries<TemplateView>)
    ensures
        compiled_pairs(p, pairs, scope) is Ok <==> forall|i: int|
            0 <= i < pairs.len() ==> inlined(p, (#[trigger] pairs[i]).value, scope) is Ok,
    decreases pairs.len(),
{
    if pairs.len() > 0 {
        let init = pairs.drop_last();
        lemma_pairs_compile(p, init, scope);
        if compiled_pairs(p, pairs, scope) is Ok {
            assert forall|i: int| 0 <= i < pairs.len() implies inlined(
                p,
                (#[trigger] pairs[i]).value,
                scope,
            ) is Ok by {
                if i < init.len() {
                    assert(init[i] == pairs[i]);
                }
            }
        } else if forall|i: int|
            0 <= i < pairs.len() ==> inlined(p, (#[trigger] pairs[i]).value, scope) is Ok {
            assert forall|i: int| 0 <= i < init.len() implies inlined(
                p,
                (#[trigger] init[i]).value,
                scope,
            ) is Ok by {
                assert(init[i] == pairs[i]);
            }
            assert(inlined(p, pairs[pairs.len() - 1].value, scope) is Ok);
        }
    }
}

proof fn lemma_arms_compile(p: Place, arms: Seq<ArmView>, scope: Entries<TemplateView>)
    ensures
        compiled_arms(p, arms, scope) is Ok <==> forall|i: int|
            0 <= i < arms.len() ==> compiled_body(p, (#[trigger] arms[i]).body, scope) is Ok,
    decreases arms.len(),
{
    if arms.len() > 0 {
        let init = arms.drop_last();
        lemma_arms_compile(p, init, scope);
        if compiled_arms(p, arms, scope) is Ok {
            assert forall|i: int| 0 <= i < arms.len() implies compiled_body(
                p,
                (#[trigger] arms[i]).body,
                scope,
            ) is Ok by {
                if i < init.len() {
                    assert(init[i] == arms[i]);
                }
            }
        } else if forall|i: int|
            0 <= i < arms.len() ==> compiled_body(p, (#[trigger] arms[i]).body, scope) is Ok {
            assert forall|i: int| 0 <= i < init.len() implies compiled_body(
                p,
                (#[trigger] init[i]).body,
                scope,
            ) is Ok by {
                assert(init[i] == arms[i]);
            }
            assert(compiled_body(p, arms[arms.len() - 1].body, scope) is Ok);
        }
    }
}

// ── Declarations ─────────────────────────────────────────────────────────────

/// A variable at the top is known under its name with its value inlined, and
/// nothing else changes; one that is known already is refused.
pub proof fn law_a_variable_is_known_afterwards(
    s: StateView,
    name: Seq<char>,
    value: TemplateView,
    offset: usize,
    len: usize,
    source_name: Seq<char>,
    other: Seq<char>,
)
    requires
        ascending(s.globals),
    ensures
        ({
            let r = with_var(s, name, value, offset, len, source_name);
            &&& r is Ok <==> lookup(s.globals, name) is None && inlined(
                s.at(source_name),
                value,
                s.globals,
            ) is Ok
            &&& r matches Ok(after) ==> {
                &&& lookup(after.globals, name) == Some(
                    inlined(s.at(source_name), value, s.globals)->Ok_0,
                )
                &&& other != name ==> lookup(after.globals, other) == lookup(s.globals, other)
                &&& after == (StateView { globals: after.globals, ..s })
            }
        }),
{
    match inlined(s.at(source_name), value, s.globals) {
        Ok(t) => {
            law_insert_then_lookup(s.globals, name, t, name);
            law_insert_then_lookup(s.globals, name, t, other);
        },
        Err(_) => {},
    }
}

/// A run is known under its name with its chains, and nothing else changes; one
/// that is known already is refused.
pub proof fn law_a_run_is_known_afterwards(
    s: StateView,
    name: Seq<char>,
    calls: Seq<Seq<CallView>>,
    offset: usize,
    len: usize,
    source_name: Seq<char>,
    other: Seq<char>,
)
    requires
        ascending(s.run_blocks),
    ensures
        ({
            let r = with_run(s, name, calls, offset, len, source_name);
            &&& r is Ok <==> lookup(s.run_blocks, name) is None
            &&& r matches Ok(after) ==> {
                &&& lookup(after.run_blocks, name) == Some(calls)
                &&& other != name ==> lookup(after.run_blocks, other) == lookup(
                    s.run_blocks,
                    other,
                )
                &&& after == (StateView { run_blocks: after.run_blocks, ..s })
            }
        }),
{
    law_insert_then_lookup(s.run_blocks, name, calls, name);
    law_insert_then_lookup(s.run_blocks, name, calls, other);
}

/// A field says its value of its repository, and leaves what the others say; one
/// that was said already is refused.
pub proof fn law_a_field_says_its_value(
    p: Place,
    pending: PendingSyncView,
    key: ProjectField,
    value: TemplateView,
    offset: usize,
    len: usize,
    globals: Entries<TemplateView>,
)
    requires
        key != ProjectField::Include,
    ensures
        ({
            let said = match key {
                ProjectField::Url => pending.url,
                ProjectField::Dir => pending.dir,
                ProjectField::Branch => pending.branch,
                _ => pending.strategy,
            };
            match with_field(p, StmtView::Field { key, value, offset, len }, pending, globals) {
                Err(_) => said is Some || inlined(p, value, globals) is Err,
                Ok(after) => said is None && (inlined(p, value, globals) matches Ok(t) && after
                    == match key {
                    ProjectField::Url => PendingSyncView { url: Some(t), ..pending },
                    ProjectField::Dir => PendingSyncView { dir: Some(t), ..pending },
                    ProjectField::Branch => PendingSyncView { branch: Some(t), ..pending },
                    _ => PendingSyncView { strategy: Some(t), ..pending },
                }),
            }
        }),
{
}

/// Fields are taken one after another, and what they say is kept under the name
/// of the repository, over what was said of it before.
pub proof fn law_fields_are_taken_in_order(
    s: StateView,
    name: Seq<char>,
    fields: Seq<StmtView>,
    last: StmtView,
    source_name: Seq<char>,
    other: Seq<char>,
)
    requires
        ascending(s.syncs),
    ensures
        ({
            let p = s.at(source_name);
            let pending = match lookup(s.syncs, name) {
                Some(pending) => pending,
                None => PendingSyncView { url: None, dir: None, branch: None, strategy: None },
            };
            &&& with_fields(p, fields.push(last), pending, s.globals) == match with_fields(
                p,
                fields,
                pending,
                s.globals,
            ) {
                Err(e) => Err(e),
                Ok(before) => with_field(p, last, before, s.globals),
            }
            &&& with_fields(p, Seq::empty(), pending, s.globals) == Ok::<
                PendingSyncView,
                CompileErrorView,
            >(pending)
            &&& fields.len() > 0 ==> (match with_fields(p, fields, pending, s.globals) {
                Err(e) => with_project_fields(s, name, fields, source_name) == Err::<
                    StateView,
                    CompileErrorView,
                >(e),
                Ok(said) => with_project_fields(s, name, fields, source_name) matches Ok(after) && {
                    &&& lookup(after.syncs, name) == Some(said)
                    &&& other != name ==> lookup(after.syncs, other) == lookup(s.syncs, other)
                    &&& after == (StateView { syncs: after.syncs, ..s })
                },
            })
        }),
{
    let p = s.at(source_name);
    let pending = match lookup(s.syncs, name) {
        Some(pending) => pending,
        None => PendingSyncView { url: None, dir: None, branch: None, strategy: None },
    };
    assert(fields.push(last).drop_last() =~= fields);
    match with_fields(p, fields, pending, s.globals) {
        Ok(said) => {
            law_insert_then_lookup(s.syncs, name, said, name);
            law_insert_then_lookup(s.syncs, name, said, other);
        },
        Err(_) => {},
    }
}

/// In a project its own variables are known, and otherwise those at the top.
pub proof fn law_a_project_sees_its_own_variables_first(
    globals: Entries<TemplateView>,
    vars: Entries<TemplateView>,
    name: Seq<char>,
)
    requires
        ascending(globals),
    ensures
        ascending(with_vars(globals, vars)),
        lookup(with_vars(globals, vars), name) == match lookup(vars, name) {
            Some(value) => Some(value),
            None => lookup(globals, name),
        },
    decreases vars.len(),
{
    if vars.len() > 0 {
        let init = vars.drop_last();
        law_a_project_sees_its_own_variables_first(globals, init, name);
        law_insert_keeps_ascending(with_vars(globals, init), vars.last().0, vars.last().1);
        law_insert_then_lookup(with_vars(globals, init), vars.last().0, vars.last().1, name);
    }
}

/// A declaration in a project: a variable is known afterwards, in the project
/// and to what follows; a function is there under its name, compiled with the
/// variables known before it. What has the name already is refused.
pub proof fn law_what_a_declaration_adds(
    p: Place,
    project: Seq<char>,
    item: StmtView,
    pending: PendingProjectView,
    scope: Entries<TemplateView>,
    other: Seq<char>,
)
    requires
        ascending(pending.vars),
        ascending(pending.functions),
        ascending(scope),
    ensures
        match (item, with_item(p, project, item, pending, scope)) {
            (StmtView::Var { name, value, .. }, Err(_)) => lookup(pending.vars, name) is Some
                || inlined(p, value, scope) is Err,
            (StmtView::Var { name, value, .. }, Ok((after, known))) => {
                &&& lookup(pending.vars, name) is None
                &&& inlined(p, value, scope) matches Ok(t) && lookup(after.vars, name) == Some(t)
                    && lookup(known, name) == Some(t)
                &&& other != name ==> lookup(after.vars, other) == lookup(pending.vars, other)
                    && lookup(known, other) == lookup(scope, other)
                &&& after.functions == pending.functions
            },
            (StmtView::Fn { name, body, .. }, Err(_)) => lookup(pending.functions, name) is Some
                || compiled_body(p, body, scope) is Err,
            (StmtView::Fn { name, body, .. }, Ok((after, known))) => {
                &&& lookup(pending.functions, name) is None
                &&& compiled_body(p, body, scope) matches Ok((out, _)) && lookup(
                    after.functions,
                    name,
                ) == Some(out)
                &&& other != name ==> lookup(after.functions, other) == lookup(
                    pending.functions,
                    other,
                )
                &&& after.vars == pending.vars
                &&& known == scope
            },
            (_, r) => r == Ok::<(PendingProjectView, Entries<TemplateView>), CompileErrorView>(
                (pending, scope),
            ),
        },
{
    match item {
        StmtView::Var { name, value, .. } => {
            match inlined(p, value, scope) {
                Ok(t) => {
                    law_insert_then_lookup(pending.vars, name, t, name);
                    law_insert_then_lookup(pending.vars, name, t, other);
                    law_insert_then_lookup(scope, name, t, name);
                    law_insert_then_lookup(scope, name, t, other);
                },
                Err(_) => {},
            }
        },
        StmtView::Fn { name, body, .. } => {
            match compiled_body(p, body, scope) {
                Ok((out, _)) => {
                    law_insert_then_lookup(pending.functions, name, out, name);
                    law_insert_then_lookup(pending.functions, name, out, other);
                },
                Err(_) => {},
            }
        },
        _ => {},
    }
}

/// The declarations of a project are taken one after another, and what they add
/// is kept under the name of the project, over what it had before.
pub proof fn law_declarations_are_taken_in_order(
    s: StateView,
    name: Seq<char>,
    body: Seq<StmtView>,
    last: StmtView,
    source_name: Seq<char>,
    other: Seq<char>,
)
    requires
        ascending(s.projects),
    ensures
        ({
            let p = s.at(source_name);
            let pending = match lookup(s.projects, name) {
                Some(pending) => pending,
                None => PendingProjectView { vars: Seq::empty(), functions: Seq::empty() },
            };
            let scope = with_vars(s.globals, pending.vars);
            &&& with_items(p, name, body.push(last), pending, scope) == match with_items(
                p,
                name,
                body,
                pending,
                scope,
            ) {
                Err(e) => Err(e),
                Ok((before, known)) => with_item(p, name, last, before, known),
            }
            &&& with_items(p, name, Seq::empty(), pending, scope) == Ok::<
                (PendingProjectView, Entries<TemplateView>),
                CompileErrorView,
            >((pending, scope))
            &&& match with_items(p, name, body, pending, scope) {
                Err(e) => with_project_body(s, name, body, source_name) == Err::<
                    StateView,
                    CompileErrorView,
                >(e),
                Ok((after, _)) => with_project_body(s, name, body, source_name) matches Ok(t) && {
                    &&& lookup(t.projects, name) == Some(after)
                    &&& other != name ==> lookup(t.projects, other) == lookup(s.projects, other)
                    &&& t == (StateView { projects: t.projects, ..s })
                },
            }
        }),
{
    let p = s.at(source_name);
    let pending = match lookup(s.projects, name) {
        Some(pending) => pending,
        None => PendingProjectView { vars: Seq::empty(), functions: Seq::empty() },
    };
    let scope = with_vars(s.globals, pending.vars);
    assert(body.push(last).drop_last() =~= body);
    match with_items(p, name, body, pending, scope) {
        Ok((after, _)) => {
            law_insert_then_lookup(s.projects, name, after, name);
            law_insert_then_lookup(s.projects, name, after, other);
        },
        Err(_) => {},
    }
}

/// A timeout is a number above zero that was not declared before, without
/// commands; and nothing else changes.
pub proof fn law_a_timeout_is_a_positive_number(
    s: StateView,
    value: TemplateView,
    text: Seq<char>,
    offset: usize,
    len: usize,
    source_name: Seq<char>,
    n: nat,
)
    requires
        value.parts == seq![PartView::Lit(text)],
        text == crate::text::decimal(n),
        n <= u64::MAX,
    ensures
        with_timeout(s, value, offset, len, source_name) is Ok <==> n > 0 && s.timeout is None,
        with_timeout(s, value, offset, len, source_name) matches Ok(after) ==> after == (StateView {
            timeout: Some(n as u64),
            ..s
        }),
{
    let p = s.at(source_name);
    lemma_literal(p, value, text, s.globals);
    crate::text::lemma_decimal_is_digits(n);
    lemma_digits_trimmed(text);
    crate::text::law_decimal_read_back(n, u64::MAX as nat);
}

proof fn lemma_literal(
    p: Place,
    value: TemplateView,
    text: Seq<char>,
    scope: Entries<TemplateView>,
)
    requires
        value.parts == seq![PartView::Lit(text)],
    ensures
        inlined(p, value, scope) == Ok::<TemplateView, CompileErrorView>(value),
        crate::lower::stmt::literal_text(value) == text,
        !crate::lower::stmt::has_command(value.parts),
{
    let one = value.parts;
    let none = Seq::<PartView>::empty();
    assert(one.drop_last() =~= none);
    assert(inlined_from(p, value, none, scope, Seq::empty()) == Ok::<
        Seq<PartView>,
        CompileErrorView,
    >(none));
    assert(none.push(PartView::Lit(text)) =~= one);
    assert(crate::lower::stmt::literal_parts(none) =~= Seq::<char>::empty());
    assert(Seq::<char>::empty() + text =~= text);
    reveal_with_fuel(crate::lower::stmt::literal_parts, 2);
    assert(crate::lower::stmt::literal_text(value) == crate::lower::stmt::literal_parts(one));
}

proof fn lemma_digits_trimmed(text: Seq<char>)
    requires
        text.len() > 0,
        forall|i: int| 0 <= i < text.len() ==> crate::text::is_digit(#[trigger] text[i]),
    ensures
        crate::text::trimmed(text) == text,
{
    assert(crate::text::is_digit(text[0]));
    assert(crate::text::is_digit(text[text.len() - 1]));
}

/// A shell that was not declared before is the text of its template, and nothing
/// else changes.
pub proof fn law_a_shell_is_its_text(
    s: StateView,
    value: TemplateView,
    text: Seq<char>,
    offset: usize,
    len: usize,
    source_name: Seq<char>,
)
    requires
        value.parts == seq![PartView::Lit(text)],
    ensures
        with_shell(s, value, offset, len, source_name) is Ok <==> s.shell is None,
        with_shell(s, value, offset, len, source_name) matches Ok(after) ==> after == (StateView {
            shell: Some(text),
            ..s
        }),
{
    lemma_literal(s.at(source_name), value, text, s.globals);
}

// ── The execution form ───────────────────────────────────────────────────────

/// What was compiled is in the execution form: the settings, each repository
/// with its templates, each project with its functions and each run with its
/// chains, under its name. The shell is `sh` where none was declared.
pub proof fn law_the_execution_form_holds_what_was_compiled(s: StateView, name: Seq<char>)
    requires
        ir_of_state(s) is Ok,
    ensures
        ({
            let ir = ir_of_state(s)->Ok_0;
            &&& s.shell matches Some(shell) ==> ir.shell == shell
            &&& s.shell is None ==> ir.shell == "sh"@
            &&& s.timeout matches Some(n) ==> ir.timeout == n
            &&& s.timeout is None ==> ir.timeout == 0
            &&& ir.sources.len() == 0 && ir.runs.len() == 0
            &&& ir.execution_chains == s.run_blocks
            &&& match lookup(s.projects, name) {
                Some(project) => lookup(ir.projects, name) matches Some(q) && q.functions
                    == project.functions,
                None => lookup(ir.projects, name) is None,
            }
            &&& match lookup(s.syncs, name) {
                Some(said) => lookup(ir.repositories, name) matches Some(sync) && {
                    &&& said.url matches Some(t) ==> sync.url == lowered(t)
                    &&& said.dir matches Some(t) ==> sync.dir == lowered(t)
                    &&& said.branch matches Some(t) ==> sync.branch == lowered(t)
                    &&& said.strategy matches Some(t) ==> sync.strategy == lowered(t)
                    &&& said.url is None ==> sync.url.parts.len() == 0
                    &&& said.dir is None ==> sync.dir.parts.len() == 0
                    &&& said.branch is None ==> sync.branch.parts.len() == 0
                    &&& said.strategy is None ==> sync.strategy.parts.len() == 0
                },
                None => lookup(ir.repositories, name) is None,
            }
        }),
{
    crate::names::lemma_map_lookup(s.projects, crate::lower::finish::project_lowerer(), name);
    crate::names::lemma_map_lookup(s.syncs, crate::lower::finish::sync_lowerer(), name);
}

/// Whether a call names a function that was compiled.
pub open spec fn is_known(s: StateView, call: CallView) -> bool {
    lookup(s.projects, call.project) matches Some(project) && lookup(
        project.functions,
        call.function,
    ) is Some
}

/// What was compiled has an execution form where every call of every run names a
/// function that was compiled.
pub proof fn law_known_calls_are_enough(s: StateView)
    requires
        forall|r: int, k: int, i: int|
            0 <= r < s.run_blocks.len() && 0 <= k < s.run_blocks[r].1.len() && 0 <= i
                < s.run_blocks[r].1[k].len() ==> is_known(
                s,
                #[trigger] s.run_blocks[r].1[k][i],
            ),
    ensures
        ir_of_state(s) is Ok,
{
    lemma_known_runs(s, s.run_blocks);
}

proof fn lemma_known_runs(s: StateView, runs: Entries<Seq<Seq<CallView>>>)
    requires
        forall|r: int, k: int, i: int|
            0 <= r < runs.len() && 0 <= k < runs[r].1.len() && 0 <= i < runs[r].1[k].len()
                ==> is_known(s, #[trigger] runs[r].1[k][i]),
    ensures
        crate::lower::finish::runs_error(s.projects, runs) is None,
    decreases runs.len(),
{
    if runs.len() > 0 {
        let init = runs.drop_last();
        assert forall|r: int, k: int, i: int|
            0 <= r < init.len() && 0 <= k < init[r].1.len() && 0 <= i
                < init[r].1[k].len() implies is_known(s, #[trigger] init[r].1[k][i]) by {
            assert(init[r].1[k][i] == runs[r].1[k][i]);
        }
        lemma_known_runs(s, init);
        let n = runs.len() - 1;
        assert forall|k: int, i: int|
            0 <= k < runs[n].1.len() && 0 <= i < runs[n].1[k].len() implies is_known(
            s,
            #[trigger] runs[n].1[k][i],
        ) by {}
        lemma_known_chains(s, runs[n].0, runs[n].1);
    }
}

proof fn lemma_known_chains(s: StateView, run: Seq<char>, chains: Seq<Seq<CallView>>)
    requires
        forall|k: int, i: int|
            0 <= k < chains.len() && 0 <= i < chains[k].len() ==> is_known(
                s,
                #[trigger] chains[k][i],
            ),
    ensures
        crate::lower::finish::chains_error(s.projects, run, chains) is None,
    decreases chains.len(),
{
    if chains.len() > 0 {
        let init = chains.drop_last();
        assert forall|k: int, i: int|
            0 <= k < init.len() && 0 <= i < init[k].len() implies is_known(
            s,
            #[trigger] init[k][i],
        ) by {
            assert(init[k][i] == chains[k][i]);
        }
        lemma_known_chains(s, run, init);
        let n = chains.len() - 1;
        assert forall|i: int| 0 <= i < chains[n].len() implies is_known(
            s,
            #[trigger] chains[n][i],
        ) by {}
        lemma_known_chain(s, run, chains[n]);
    }
}

proof fn lemma_known_chain(s: StateView, run: Seq<char>, calls: Seq<CallView>)
    requires
        forall|i: int| 0 <= i < calls.len() ==> is_known(s, #[trigger] calls[i]),
    ensures
        crate::lower::finish::chain_error(s.projects, run, calls) is None,
    decreases calls.len(),
{
    if calls.len() > 0 {
        let init = calls.drop_last();
        assert forall|i: int| 0 <= i < init.len() implies is_known(s, #[trigger] init[i]) by {
            assert(init[i] == calls[i]);
        }
        lemma_known_chain(s, run, init);
        assert(is_known(s, calls[calls.len() - 1]));
    }
}

// ── Settings ─────────────────────────────────────────────────────────────────

/// A template is put down as text piece by piece: a literal as it is, a command by
/// the text in it, and a variable not at all.
pub proof fn law_a_template_as_text(a: Seq<PartView>, b: Seq<PartView>, piece: PartView)
    ensures
        literal_parts(a + b) == literal_parts(a) + literal_parts(b),
        literal_parts(seq![piece]) == match piece {
            PartView::Lit(s) => s,
            PartView::Var(_) => Seq::empty(),
            PartView::Cmd(inner) => literal_text(inner),
        },
        forall|t: TemplateView| #[trigger] literal_text(t) == literal_parts(t.parts),
    decreases b.len(),
{
    let one = seq![piece];
    let none = Seq::<PartView>::empty();
    assert(one.drop_last() =~= none);
    assert(one.last() == piece);
    assert(literal_parts(none) =~= Seq::<char>::empty());
    let own = match piece {
        PartView::Lit(s) => s,
        PartView::Var(_) => Seq::empty(),
        PartView::Cmd(inner) => literal_text(inner),
    };
    assert(literal_parts(one) == literal_parts(none) + own);
    assert(Seq::<char>::empty() + own =~= own);
    if b.len() == 0 {
        assert(a + b =~= a);
        assert(b =~= none);
        assert(literal_parts(a) + Seq::<char>::empty() =~= literal_parts(a));
    } else {
        law_a_template_as_text(a, b.drop_last(), piece);
        assert((a + b).drop_last() =~= a + b.drop_last());
        assert((a + b).last() == b.last());
        let more = match b.last() {
            PartView::Lit(s) => s,
            PartView::Var(_) => Seq::empty(),
            PartView::Cmd(inner) => literal_text(inner),
        };
        assert(literal_parts(b) == literal_parts(b.drop_last()) + more);
        assert(literal_parts(a + b) == literal_parts(a + b.drop_last()) + more);
        assert(literal_parts(a) + literal_parts(b.drop_last()) + more =~= literal_parts(a)
            + literal_parts(b));
    }
}

/// A setting is taken once, and only where its value is known: the shell as the
/// text of its value, the timeout as the number in it, which is above zero and
/// stands there without a command.
pub proof fn law_when_a_setting_is_taken(
    s: StateView,
    value: TemplateView,
    offset: usize,
    len: usize,
    source_name: Seq<char>,
)
    ensures
        ({
            let known = inlined(s.at(source_name), value, s.globals);
            let shell = with_shell(s, value, offset, len, source_name);
            let timeout = with_timeout(s, value, offset, len, source_name);
            &&& shell is Ok <==> s.shell is None && known is Ok
            &&& shell matches Ok(after) ==> after == (StateView {
                shell: Some(literal_text(known->Ok_0)),
                ..s
            })
            &&& timeout is Ok ==> s.timeout is None && known is Ok && forall|i: int|
                0 <= i < known->Ok_0.parts.len() ==> !(#[trigger] known->Ok_0.parts[i] is Cmd)
            &&& timeout matches Ok(after) ==> {
                &&& after.timeout matches Some(n) && n > 0 && crate::text::number(
                    crate::text::trimmed(literal_text(known->Ok_0)),
                    u64::MAX as nat,
                ) == Ok::<nat, crate::text::NumberError>(n as nat)
                &&& after == (StateView { timeout: after.timeout, ..s })
            }
        }),
{
    match inlined(s.at(source_name), value, s.globals) {
        Ok(t) => {
            let text = crate::text::trimmed(literal_text(t));
            lemma_number_fits(text, u64::MAX as nat);
        },
        Err(_) => {},
    }
}

proof fn lemma_number_fits(s: Seq<char>, max: nat)
    ensures
        crate::text::number(s, max) matches Ok(n) ==> n <= max,
{
    lemma_digits_fit(s, max);
    if s.len() > 1 {
        lemma_digits_fit(s.skip(1), max);
    }
}

proof fn lemma_digits_fit(s: Seq<char>, max: nat)
    ensures
        crate::text::digits_number(s, max) matches Ok(n) ==> n <= max,
{
}

} // verus!
